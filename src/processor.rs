//! Record extraction and de-duplication: from log text to usage entries.

use vstd::prelude::*;
use vstd::hash_set::StringHashSet;
use crate::amount::{nanos_of_amount, parse_amount_nanos};
use crate::clock::{parse_rfc3339, rfc3339_utc};
use crate::amount::find_either;
use crate::json::{LineFields, line_fields, read_line_fields};
use crate::models::{Timestamp, UsageEntry, copy_opt};
use crate::pricing::{CostCalculator, cost_of};
use crate::text::{decimal, push_decimal};
use crate::sorting::{ascending_order, is_permutation, lemma_reversed_permutation, reversed};

verus! {

/// A set of record identities already seen.
pub struct DedupKeys {
    keys: StringHashSet,
}

impl View for DedupKeys {
    type V = Set<Seq<char>>;

    closed spec fn view(&self) -> Set<Seq<char>> {
        self.keys@
    }
}

impl DedupKeys {
    /// The empty set.
    pub fn new() -> (r: Self)
        ensures
            r@ == Set::<Seq<char>>::empty(),
    {
        DedupKeys { keys: StringHashSet::new() }
    }

    pub fn contains(&self, key: &str) -> (r: bool)
        ensures
            r == self@.contains(key@),
    {
        self.keys.contains(key)
    }

    pub fn insert(&mut self, key: String)
        ensures
            final(self)@ == old(self)@.insert(key@),
    {
        self.keys.insert(key);
    }

    pub fn len(&self) -> (r: usize)
        ensures
            r == self@.len(),
    {
        self.keys.len()
    }
}

/// Why a line yields no record and deserves a warning.
#[derive(Clone, Copy, Debug, PartialEq, Eq)]
pub enum LineError {
    /// The line is not JSON.
    InvalidJson,
    /// No `timestamp` string.
    MissingTimestamp,
    /// A `timestamp` that is not RFC 3339.
    InvalidTimestamp,
    /// No `message` member.
    MissingMessage,
}

/// The error of a line, checked in order: timestamp present, timestamp
/// readable, message present.
pub open spec fn line_error(f: LineFields, when: Option<Timestamp>) -> Option<LineError> {
    if f.timestamp is None {
        Some(LineError::MissingTimestamp)
    } else if !(when matches Some(t) && t.wf()) {
        Some(LineError::InvalidTimestamp)
    } else if !f.has_message {
        Some(LineError::MissingMessage)
    } else {
        None
    }
}

/// The moment a line's timestamp text names.
pub open spec fn when_of(f: LineFields) -> Option<Timestamp> {
    match f.timestamp {
        Some(t) => rfc3339_utc(t@),
        None => None,
    }
}

/// The identity of a record: the length of `message.id` in decimal, a
/// colon, `message.id`, then `requestId`; none unless both are there. The
/// length prefix keeps different pairs apart.
pub open spec fn dedup_key_of(f: LineFields) -> Option<Seq<char>> {
    match (f.message_id, f.request_id) {
        (Some(m), Some(q)) => Some(identity_key(m@, q@)),
        _ => None,
    }
}

/// The joined identity of a `message.id` and a `requestId`.
pub open spec fn identity_key(m: Seq<char>, q: Seq<char>) -> Seq<char> {
    decimal(m.len()) + seq![':'] + m + q
}

/// A record with this identity may be kept: it has none, or neither set holds it.
pub open spec fn admits(local: Set<Seq<char>>, global: Set<Seq<char>>, key: Option<Seq<char>>) -> bool {
    match key {
        Some(k) => !local.contains(k) && !global.contains(k),
        None => true,
    }
}

/// The set after a kept record with this identity.
pub open spec fn remember(seen: Set<Seq<char>>, key: Option<Seq<char>>) -> Set<Seq<char>> {
    match key {
        Some(k) => seen.insert(k),
        None => seen,
    }
}

/// A token count as stored: the low 32 bits, zero when missing.
pub open spec fn count_or_zero(c: Option<u64>) -> u32 {
    match c {
        Some(n) => n as u32,
        None => 0,
    }
}

/// At least one of the four token counts is not zero.
pub open spec fn has_tokens(f: LineFields) -> bool {
    count_or_zero(f.input_tokens) != 0 || count_or_zero(f.output_tokens) != 0 || count_or_zero(
        f.cache_read_tokens,
    ) != 0 || count_or_zero(f.cache_creation_tokens) != 0
}

/// The model id of a line, `unknown` when missing.
pub open spec fn model_text(f: LineFields) -> Seq<char> {
    match f.model {
        Some(m) => m@,
        None => "unknown"@,
    }
}

/// The cost of a line: its `costUSD` when that reads as an amount, else the
/// price of its tokens.
pub open spec fn cost_of_fields(f: LineFields) -> int {
    match f.cost_usd {
        Some(t) if nanos_of_amount(t@) is Some => nanos_of_amount(t@)->0 as int,
        _ => cost_of(
            model_text(f),
            count_or_zero(f.input_tokens) as int,
            count_or_zero(f.output_tokens) as int,
            count_or_zero(f.cache_read_tokens) as int,
            count_or_zero(f.cache_creation_tokens) as int,
        ),
    }
}

/// `e` is the record that the fields of a line give.
pub open spec fn entry_from_fields(e: UsageEntry, f: LineFields, t: Timestamp, session: Option<String>) -> bool {
    &&& e.timestamp == t
    &&& e.model@ == model_text(f)
    &&& e.project_path == f.cwd
    &&& e.session_id == session
    &&& e.request_id == f.request_id
    &&& e.input_tokens == count_or_zero(f.input_tokens)
    &&& e.output_tokens == count_or_zero(f.output_tokens)
    &&& e.cache_read_tokens == count_or_zero(f.cache_read_tokens)
    &&& e.cache_creation_tokens == count_or_zero(f.cache_creation_tokens)
    &&& e.cost as int == cost_of_fields(f)
}

/// What one line does: its result, and the two identity sets after it.
/// Errors and skips leave the sets alone; only a kept record adds its
/// identity to them.
pub open spec fn line_outcome(
    f: LineFields,
    when: Option<Timestamp>,
    session: Option<String>,
    local: Set<Seq<char>>,
    global: Set<Seq<char>>,
    r: Result<Option<UsageEntry>, LineError>,
    local2: Set<Seq<char>>,
    global2: Set<Seq<char>>,
) -> bool {
    match line_error(f, when) {
        Some(err) => r == Err::<Option<UsageEntry>, LineError>(err) && local2 == local && global2 == global,
        None => if !f.has_usage || !has_tokens(f) || !admits(local, global, dedup_key_of(f)) {
            r == Ok::<Option<UsageEntry>, LineError>(None) && local2 == local && global2 == global
        } else {
            &&& local2 == remember(local, dedup_key_of(f))
            &&& global2 == remember(global, dedup_key_of(f))
            &&& r matches Ok(Some(e)) && entry_from_fields(e, f, when->0, session)
        },
    }
}

/// A line gives a record: no error, usage with a token, and an identity
/// that neither set holds (or none).
pub open spec fn passes_check(f: LineFields, when: Option<Timestamp>, local: Set<Seq<char>>, global: Set<Seq<char>>) -> bool {
    line_error(f, when) is None && f.has_usage && has_tokens(f) && admits(local, global, dedup_key_of(f))
}

/// The two identity sets after a line.
pub open spec fn sets_after(f: LineFields, when: Option<Timestamp>, local: Set<Seq<char>>, global: Set<Seq<char>>) -> (
    Set<Seq<char>>,
    Set<Seq<char>>,
) {
    if passes_check(f, when, local, global) {
        (remember(local, dedup_key_of(f)), remember(global, dedup_key_of(f)))
    } else {
        (local, global)
    }
}

/// One non-blank line of a file as read: its 1-based number, its fields
/// (none when it is not JSON), and the moment its timestamp names.
#[derive(Debug)]
pub struct ReadLine {
    pub number: usize,
    pub fields: Option<LineFields>,
    pub when: Option<Timestamp>,
}

/// The error of a read line, if any.
pub open spec fn read_error(l: ReadLine) -> Option<LineError> {
    match l.fields {
        Some(f) => line_error(f, l.when),
        None => Some(LineError::InvalidJson),
    }
}

/// A read line gives a record.
pub open spec fn read_keeps(l: ReadLine, local: Set<Seq<char>>, global: Set<Seq<char>>) -> bool {
    match l.fields {
        Some(f) => passes_check(f, l.when, local, global),
        None => false,
    }
}

/// The two identity sets after a read line.
pub open spec fn read_sets(l: ReadLine, local: Set<Seq<char>>, global: Set<Seq<char>>) -> (Set<Seq<char>>, Set<Seq<char>>) {
    match l.fields {
        Some(f) => sets_after(f, l.when, local, global),
        None => (local, global),
    }
}

/// The two identity sets after the lines of a file, from `local` and `global`.
pub open spec fn scan_sets(lines: Seq<ReadLine>, local: Set<Seq<char>>, global: Set<Seq<char>>) -> (
    Set<Seq<char>>,
    Set<Seq<char>>,
)
    decreases lines.len(),
{
    if lines.len() == 0 {
        (local, global)
    } else {
        let (l, g) = scan_sets(lines.drop_last(), local, global);
        read_sets(lines.last(), l, g)
    }
}

/// The positions of the lines that give records.
pub open spec fn kept_positions(lines: Seq<ReadLine>, local: Set<Seq<char>>, global: Set<Seq<char>>) -> Seq<int>
    decreases lines.len(),
{
    if lines.len() == 0 {
        Seq::empty()
    } else {
        let prev = kept_positions(lines.drop_last(), local, global);
        let (l, g) = scan_sets(lines.drop_last(), local, global);
        if read_keeps(lines.last(), l, g) {
            prev.push(lines.len() - 1)
        } else {
            prev
        }
    }
}

/// The positions of the lines with an error.
pub open spec fn error_positions(lines: Seq<ReadLine>) -> Seq<int>
    decreases lines.len(),
{
    if lines.len() == 0 {
        Seq::empty()
    } else {
        let prev = error_positions(lines.drop_last());
        if read_error(lines.last()) is Some {
            prev.push(lines.len() - 1)
        } else {
            prev
        }
    }
}

/// `r` and `global2` are what scanning `lines` from a fresh file set and the
/// load's set `global` gives: a record for each line that keeps one, in
/// order, a warning for each line with an error, and the grown load set.
pub open spec fn scan_result(
    lines: Seq<ReadLine>,
    session: Option<String>,
    global: Set<Seq<char>>,
    r: FileScan,
    global2: Set<Seq<char>>,
) -> bool {
    let kept = kept_positions(lines, Set::empty(), global);
    let errs = error_positions(lines);
    &&& global2 == scan_sets(lines, Set::empty(), global).1
    &&& r.entries@.len() == kept.len()
    &&& forall|k: int| 0 <= k < kept.len() ==> entry_from_fields(
        #[trigger] r.entries@[k],
        lines[kept[k]].fields->0,
        lines[kept[k]].when->0,
        session,
    )
    &&& r.warnings@.len() == errs.len()
    &&& forall|k: int| 0 <= k < errs.len() ==> #[trigger] r.warnings@[k] == (LineWarning {
        line_number: lines[errs[k]].number,
        error: read_error(lines[errs[k]])->0,
    })
}

/// Whether std counts a character as white space.
pub uninterp spec fn white_space(c: char) -> bool;

/// std's `char::is_whitespace`: whether a character is Unicode white space;
/// the answer depends on the character alone.
pub assume_specification[ char::is_whitespace ](c: char) -> (r: bool)
    ensures
        r == white_space(c),
;

/// The lines of a text as std's `str::lines` gives them: split at each
/// `\n`, with a `\r` right before it dropped too; a last line without `\n`
/// is kept as it is, and there is no line after a final `\n`.
pub open spec fn text_lines(s: Seq<char>) -> Seq<Seq<char>>
    decreases s.len(),
{
    if s.len() == 0 {
        Seq::empty()
    } else {
        let i = find_either(s, '\n', '\n', 0);
        if i < 0 || i >= s.len() {
            seq![s]
        } else {
            let line = s.take(i);
            let line2 = if line.len() > 0 && line.last() == '\r' {
                line.drop_last()
            } else {
                line
            };
            seq![line2] + text_lines(s.skip(i + 1))
        }
    }
}

/// Relies on std's `str::lines`: lines split at `\n` or `\r\n`, without
/// their endings, and no empty line after a final ending.
#[verifier::external_body]
fn split_lines(text: &str) -> (r: Vec<String>)
    ensures
        r@.len() == text_lines(text@).len(),
        forall|i: int| 0 <= i < r@.len() ==> (#[trigger] r@[i])@ == text_lines(text@)[i],
{
    text.lines().map(String::from).collect()
}

/// The line holds nothing but white space.
pub open spec fn blank(line: Seq<char>) -> bool {
    forall|i: int| 0 <= i < line.len() ==> white_space(#[trigger] line[i])
}

/// The line holds nothing but white space.
fn is_blank(line: &str) -> (r: bool)
    ensures
        r == blank(line@),
{
    let cs = crate::text::chars_of(line);
    let mut i: usize = 0;
    while i < cs.len()
        invariant
            cs@ == line@,
            i <= cs@.len(),
            forall|k: int| 0 <= k < i ==> white_space(#[trigger] cs@[k]),
        decreases cs.len() - i,
    {
        if !cs[i].is_whitespace() {
            return false;
        }
        i = i + 1;
    }
    true
}

/// A non-blank line of a file, read: its number, fields and moment.
pub open spec fn read_line_of(l: Seq<char>, number: int) -> ReadLine {
    let f = line_fields(l);
    ReadLine {
        number: number as usize,
        fields: f,
        when: match f {
            Some(x) => when_of(x),
            None => None,
        },
    }
}

/// The first `k` lines of `ls` read, blank ones left out.
pub open spec fn read_lines_upto(ls: Seq<Seq<char>>, k: int) -> Seq<ReadLine>
    decreases k,
{
    if k <= 0 {
        Seq::empty()
    } else {
        let prev = read_lines_upto(ls, k - 1);
        if blank(ls[k - 1]) {
            prev
        } else {
            prev.push(read_line_of(ls[k - 1], k))
        }
    }
}

/// The non-blank lines of a file's text, numbered from 1, each read.
pub open spec fn read_lines_of(content: Seq<char>) -> Seq<ReadLine> {
    read_lines_upto(text_lines(content), text_lines(content).len() as int)
}

/// A line that gave an error, by its 1-based number.
#[derive(Clone, Copy, Debug, PartialEq, Eq)]
pub struct LineWarning {
    pub line_number: usize,
    pub error: LineError,
}

/// The records of one file and the warnings of its lines.
#[derive(Debug)]
pub struct FileScan {
    pub entries: Vec<UsageEntry>,
    pub warnings: Vec<LineWarning>,
}

/// The text of one log file and the session it belongs to.
#[derive(Debug)]
pub struct LogFile {
    pub session_id: Option<String>,
    pub content: String,
}

/// A warning of one line of one file (by its index in the load).
#[derive(Clone, Copy, Debug, PartialEq, Eq)]
pub struct FileWarning {
    pub file_index: usize,
    pub line_number: usize,
    pub error: LineError,
}

/// Every record of a load, most recent first, with the warnings of its lines.
#[derive(Debug)]
pub struct LoadResult {
    pub entries: Vec<UsageEntry>,
    pub warnings: Vec<FileWarning>,
    pub file_count: usize,
}

/// `r` holds the items of `s` in some order: `r[i] == s[order[i]]` for a
/// permutation `order`.
pub open spec fn is_reordering(r: Seq<UsageEntry>, s: Seq<UsageEntry>) -> bool {
    r.len() == s.len() && exists|order: Seq<usize>|
        is_permutation(order, s.len()) && forall|i: int| 0 <= i < r.len() ==> #[trigger] r[i] == s[order[i] as int]
}

/// From the most recent to the oldest.
pub open spec fn newest_first(r: Seq<UsageEntry>) -> bool {
    forall|i: int, j: int| 0 <= i < j < r.len() ==> r[i].timestamp.instant() >= r[j].timestamp.instant()
}

/// The files of a load scanned in order: `scans[i]` is the scan of the
/// read lines of file `i`, and `sets[i]` the load's identity set before it
/// (empty before the first file).
pub open spec fn load_scans(files: Seq<LogFile>, scans: Seq<FileScan>, sets: Seq<Set<Seq<char>>>) -> bool {
    &&& scans.len() == files.len()
    &&& sets.len() == files.len() + 1
    &&& sets[0] == Set::<Seq<char>>::empty()
    &&& forall|k: int| 0 <= k < files.len() ==> scan_result(
        read_lines_of((#[trigger] files[k]).content@),
        files[k].session_id,
        sets[k],
        scans[k],
        sets[k + 1],
    )
}

/// The records of the scans, file after file.
pub open spec fn all_entries(scans: Seq<FileScan>) -> Seq<UsageEntry>
    decreases scans.len(),
{
    if scans.len() == 0 {
        Seq::empty()
    } else {
        all_entries(scans.drop_last()) + scans.last().entries@
    }
}

/// The warnings of one file, marked with its index.
pub open spec fn file_warnings(ws: Seq<LineWarning>, file_index: int) -> Seq<FileWarning> {
    ws.map_values(|w: LineWarning| FileWarning { file_index: file_index as usize, line_number: w.line_number, error: w.error })
}

/// The warnings of the scans, file after file.
pub open spec fn all_warnings(scans: Seq<FileScan>) -> Seq<FileWarning>
    decreases scans.len(),
{
    if scans.len() == 0 {
        Seq::empty()
    } else {
        all_warnings(scans.drop_last()) + file_warnings(scans.last().warnings@, scans.len() - 1)
    }
}

/// The records of a list, ordered from the most recent to the oldest.
pub fn sort_newest_first(entries: Vec<UsageEntry>) -> (r: Vec<UsageEntry>)
    ensures
        is_reordering(r@, entries@),
        newest_first(r@),
{
    let n = entries.len();
    let mut keys: Vec<i128> = Vec::new();
    let mut i: usize = 0;
    while i < n
        invariant
            n == entries.len(),
            i <= n,
            keys@.len() == i,
            forall|k: int| 0 <= k < i ==> #[trigger] keys@[k] == entries@[k].timestamp.instant(),
        decreases n - i,
    {
        keys.push(entries[i].timestamp.instant_key());
        i = i + 1;
    }
    let order = ascending_order(&keys);
    let mut r: Vec<UsageEntry> = Vec::new();
    let mut j: usize = 0;
    while j < n
        invariant
            n == entries.len(),
            is_permutation(order@, n as nat),
            keys@.len() == n,
            forall|k: int| 0 <= k < n ==> #[trigger] keys@[k] == entries@[k].timestamp.instant(),
            forall|a: int, b: int| 0 <= a < b < n ==> keys@[order@[a] as int] <= keys@[order@[b] as int],
            j <= n,
            r@.len() == j,
            forall|k: int| 0 <= k < j ==> #[trigger] r@[k] == entries@[order@[n - 1 - k] as int],
        decreases n - j,
    {
        r.push(entries[order[n - 1 - j]].copy());
        j = j + 1;
    }
    let ghost rev = reversed(order@);
    proof {
        lemma_reversed_permutation(order@, n as nat);
    }
    assert(forall|k: int| 0 <= k < r@.len() ==> #[trigger] r@[k] == entries@[rev[k] as int]);
    assert forall|a: int, b: int| 0 <= a < b < r@.len() implies r@[a].timestamp.instant() >= r@[b].timestamp.instant() by {
        assert(keys@[order@[n - 1 - b] as int] <= keys@[order@[n - 1 - a] as int]);
    }
    r
}

/// What every scan result holds: its records are well formed and of the
/// session, and the load set only grows.
proof fn lemma_scan_facts(lines: Seq<ReadLine>, session: Option<String>, global: Set<Seq<char>>, r: FileScan, global2: Set<Seq<char>>)
    requires
        scan_result(lines, session, global, r, global2),
    ensures
        forall|i: int| 0 <= i < r.entries@.len() ==> (#[trigger] r.entries@[i]).wf() && r.entries@[i].session_id == session,
        global.subset_of(global2),
{
    lemma_kept_positions(lines, Set::empty(), global);
    lemma_scan_sets_grow(lines, Set::empty(), global);
    assert forall|i: int| 0 <= i < r.entries@.len() implies (#[trigger] r.entries@[i]).wf() && r.entries@[i].session_id == session by {
        let kept = kept_positions(lines, Set::empty(), global);
        let p = kept[i];
        assert(entry_from_fields(r.entries@[i], lines[p].fields->0, lines[p].when->0, session));
    }
}

/// A kept line has fields, a usable timestamp and at least one token.
pub proof fn lemma_kept_positions(lines: Seq<ReadLine>, local: Set<Seq<char>>, global: Set<Seq<char>>)
    ensures
        forall|k: int| 0 <= k < kept_positions(lines, local, global).len() ==> ({
            let p = #[trigger] kept_positions(lines, local, global)[k];
            &&& 0 <= p < lines.len()
            &&& lines[p].fields is Some
            &&& line_error(lines[p].fields->0, lines[p].when) is None
            &&& has_tokens(lines[p].fields->0)
            &&& (lines[p].fields->0).has_usage
        }),
    decreases lines.len(),
{
    if lines.len() > 0 {
        let pre = lines.drop_last();
        lemma_kept_positions(pre, local, global);
        assert forall|k: int| 0 <= k < kept_positions(lines, local, global).len() implies ({
            let p = #[trigger] kept_positions(lines, local, global)[k];
            &&& 0 <= p < lines.len()
            &&& lines[p].fields is Some
            &&& line_error(lines[p].fields->0, lines[p].when) is None
            &&& has_tokens(lines[p].fields->0)
            &&& (lines[p].fields->0).has_usage
        }) by {
            if k < kept_positions(pre, local, global).len() {
                let p = kept_positions(pre, local, global)[k];
                assert(kept_positions(lines, local, global)[k] == p);
                assert(lines[p] == pre[p]);
            }
        }
    }
}

/// The load set only grows over a scan.
pub proof fn lemma_scan_sets_grow(lines: Seq<ReadLine>, local: Set<Seq<char>>, global: Set<Seq<char>>)
    ensures
        global.subset_of(scan_sets(lines, local, global).1),
    decreases lines.len(),
{
    if lines.len() > 0 {
        lemma_scan_sets_grow(lines.drop_last(), local, global);
    }
}

/// The joined identity of a `message.id` and a `requestId`.
pub fn join_identity(message_id: &str, request_id: &str) -> (r: String)
    ensures
        r@ == identity_key(message_id@, request_id@),
{
    let mut key = String::new();
    push_decimal(&mut key, message_id.unicode_len() as u64);
    key.append(":");
    key.append(message_id);
    key.append(request_id);
    proof {
        reveal_strlit(":");
    }
    key
}

fn count_exec(c: Option<u64>) -> (r: u32)
    ensures
        r == count_or_zero(c),
{
    match c {
        Some(n) => n as u32,
        None => 0,
    }
}

/// Reads the log files of one load.
pub struct UsageProcessor {
    cost_calculator: CostCalculator,
}

impl UsageProcessor {
    pub fn new() -> (r: Self) {
        UsageProcessor { cost_calculator: CostCalculator::new() }
    }

    /// One line: its record, a skip (`Ok(None)`), or its error.
    pub fn process_line(
        &self,
        line: &str,
        session_id: &Option<String>,
        local: &mut DedupKeys,
        global: &mut DedupKeys,
    ) -> (r: Result<Option<UsageEntry>, LineError>)
        ensures
            match line_fields(line@) {
                None => r == Err::<Option<UsageEntry>, LineError>(LineError::InvalidJson) && final(local)@ == old(
                    local,
                )@ && final(global)@ == old(global)@,
                Some(f) => line_outcome(f, when_of(f), *session_id, old(local)@, old(global)@, r, final(local)@, final(global)@),
            },
            r matches Ok(Some(e)) ==> e.wf() && e.session_id == *session_id,
            old(global)@.subset_of(final(global)@),
    {
        let f = match read_line_fields(line) {
            Some(f) => f,
            None => {
                return Err(LineError::InvalidJson);
            },
        };
        let when = match &f.timestamp {
            Some(t) => parse_rfc3339(t.as_str()),
            None => None,
        };
        self.record_from_fields(&f, when, session_id, local, global)
    }

    /// The read lines of one file, in order, against a fresh identity set
    /// for the file and the load's `global` one.
    pub fn scan_lines(&self, lines: &Vec<ReadLine>, session_id: &Option<String>, global: &mut DedupKeys) -> (r: FileScan)
        ensures
            scan_result(lines@, *session_id, old(global)@, r, final(global)@),
    {
        let ghost ls = lines@;
        let ghost g0 = global@;
        let mut local = DedupKeys::new();
        let mut entries: Vec<UsageEntry> = Vec::new();
        let mut warnings: Vec<LineWarning> = Vec::new();
        let mut i: usize = 0;
        while i < lines.len()
            invariant
                ls == lines@,
                i <= ls.len(),
                (local@, global@) == scan_sets(ls.take(i as int), Set::empty(), g0),
                entries@.len() == kept_positions(ls.take(i as int), Set::empty(), g0).len(),
                forall|k: int| 0 <= k < entries@.len() ==> ({
                    let p = #[trigger] kept_positions(ls.take(i as int), Set::empty(), g0)[k];
                    0 <= p < i && entry_from_fields(entries@[k], ls[p].fields->0, ls[p].when->0, *session_id)
                }),
                warnings@.len() == error_positions(ls.take(i as int)).len(),
                forall|k: int| 0 <= k < warnings@.len() ==> ({
                    let p = #[trigger] error_positions(ls.take(i as int))[k];
                    0 <= p < i && warnings@[k] == (LineWarning {
                        line_number: ls[p].number,
                        error: read_error(ls[p])->0,
                    })
                }),
            decreases ls.len() - i,
        {
            let ghost pre = ls.take(i as int);
            let ghost post = ls.take(i + 1);
            assert(post.drop_last() =~= pre);
            assert(post.last() == ls[i as int]);
            let line = &lines[i];
            match &line.fields {
                Some(f) => {
                    let r = self.record_from_fields(f, line.when, session_id, &mut local, global);
                    match r {
                        Ok(Some(e)) => {
                            entries.push(e);
                        },
                        Ok(None) => {},
                        Err(error) => {
                            warnings.push(LineWarning { line_number: line.number, error });
                        },
                    }
                },
                None => {
                    warnings.push(LineWarning { line_number: line.number, error: LineError::InvalidJson });
                },
            }
            proof {
                assert forall|k: int| 0 <= k < entries@.len() implies ({
                    let p = #[trigger] kept_positions(post, Set::empty(), g0)[k];
                    0 <= p < i + 1 && entry_from_fields(entries@[k], ls[p].fields->0, ls[p].when->0, *session_id)
                }) by {
                    if k < kept_positions(pre, Set::empty(), g0).len() {
                        assert(kept_positions(post, Set::empty(), g0)[k] == kept_positions(pre, Set::empty(), g0)[k]);
                    }
                }
                assert forall|k: int| 0 <= k < warnings@.len() implies ({
                    let p = #[trigger] error_positions(post)[k];
                    0 <= p < i + 1 && warnings@[k] == (LineWarning {
                        line_number: ls[p].number,
                        error: read_error(ls[p])->0,
                    })
                }) by {
                    if k < error_positions(pre).len() {
                        assert(error_positions(post)[k] == error_positions(pre)[k]);
                    }
                }
            }
            i = i + 1;
        }
        assert(ls.take(ls.len() as int) =~= ls);
        FileScan { entries, warnings }
    }

    /// The lines of one file, in order, against the file's own identity set
    /// and the load's `global` one. Blank lines are passed over; a line with
    /// an error adds a warning and the scan goes on.
    pub fn process_file(&self, content: &str, session_id: &Option<String>, global: &mut DedupKeys) -> (r: FileScan)
        ensures
            scan_result(read_lines_of(content@), *session_id, old(global)@, r, final(global)@),
            forall|i: int| 0 <= i < r.entries@.len() ==> (#[trigger] r.entries@[i]).wf()
                && r.entries@[i].session_id == *session_id,
            old(global)@.subset_of(final(global)@),
    {
        let lines = split_lines(content);
        let ghost ls = text_lines(content@);
        let mut read: Vec<ReadLine> = Vec::new();
        let mut i: usize = 0;
        while i < lines.len()
            invariant
                ls == text_lines(content@),
                lines@.len() == ls.len(),
                forall|k: int| 0 <= k < lines@.len() ==> (#[trigger] lines@[k])@ == ls[k],
                i <= lines@.len(),
                read@ == read_lines_upto(ls, i as int),
            decreases lines@.len() - i,
        {
            let line = lines[i].as_str();
            if !is_blank(line) {
                let fields = read_line_fields(line);
                let when = match &fields {
                    Some(f) => match &f.timestamp {
                        Some(t) => parse_rfc3339(t.as_str()),
                        None => None,
                    },
                    None => None,
                };
                read.push(ReadLine { number: i + 1, fields, when });
            }
            i = i + 1;
        }
        let r = self.scan_lines(&read, session_id, global);
        proof {
            lemma_scan_facts(read@, *session_id, old(global)@, r, global@);
        }
        r
    }

    /// Every file of a load, in the order given (most recently modified
    /// first), against one shared identity set; the records come out most
    /// recent first.
    pub fn process_all_files(&self, files: &Vec<LogFile>) -> (r: LoadResult)
        ensures
            exists|scans: Seq<FileScan>, sets: Seq<Set<Seq<char>>>|
                load_scans(files@, scans, sets) && is_reordering(r.entries@, all_entries(scans))
                    && r.warnings@ == all_warnings(scans),
            forall|i: int| 0 <= i < r.entries@.len() ==> (#[trigger] r.entries@[i]).wf(),
            newest_first(r.entries@),
            r.file_count == files@.len(),
    {
        let mut global = DedupKeys::new();
        let mut all: Vec<UsageEntry> = Vec::new();
        let mut warnings: Vec<FileWarning> = Vec::new();
        let ghost mut scans: Seq<FileScan> = Seq::empty();
        let ghost mut sets: Seq<Set<Seq<char>>> = seq![Set::empty()];
        let mut i: usize = 0;
        while i < files.len()
            invariant
                i <= files.len(),
                scans.len() == i,
                sets.len() == i + 1,
                sets[0] == Set::<Seq<char>>::empty(),
                sets[i as int] == global@,
                forall|k: int| 0 <= k < i ==> scan_result(
                    read_lines_of((#[trigger] files@[k]).content@),
                    files@[k].session_id,
                    sets[k],
                    scans[k],
                    sets[k + 1],
                ),
                all@ == all_entries(scans),
                warnings@ == all_warnings(scans),
                forall|k: int| 0 <= k < all@.len() ==> (#[trigger] all@[k]).wf(),
            decreases files.len() - i,
        {
            let ghost g_before = global@;
            let ghost old_scans = scans;
            let scan = self.process_file(files[i].content.as_str(), &files[i].session_id, &mut global);
            proof {
                scans = scans.push(scan);
                sets = sets.push(global@);
                assert(scans.drop_last() =~= old_scans);
                assert forall|k: int| 0 <= k < i + 1 implies scan_result(
                    read_lines_of((#[trigger] files@[k]).content@),
                    files@[k].session_id,
                    sets[k],
                    scans[k],
                    sets[k + 1],
                ) by {}
            }
            let ghost before = all@;
            let ghost wbefore = warnings@;
            let mut j: usize = 0;
            while j < scan.entries.len()
                invariant
                    j <= scan.entries@.len(),
                    all@ == before + scan.entries@.take(j as int),
                    forall|k: int| 0 <= k < before.len() ==> (#[trigger] before[k]).wf(),
                    forall|k: int| 0 <= k < scan.entries@.len() ==> (#[trigger] scan.entries@[k]).wf(),
                decreases scan.entries@.len() - j,
            {
                all.push(scan.entries[j].copy());
                assert(all@ =~= before + scan.entries@.take(j + 1));
                j = j + 1;
            }
            assert(scan.entries@.take(scan.entries@.len() as int) =~= scan.entries@);
            assert forall|k: int| 0 <= k < all@.len() implies (#[trigger] all@[k]).wf() by {
                if k >= before.len() {
                    assert(all@[k] == scan.entries@[k - before.len()]);
                }
            }
            let mut j: usize = 0;
            while j < scan.warnings.len()
                invariant
                    j <= scan.warnings@.len(),
                    warnings@ == wbefore + file_warnings(scan.warnings@.take(j as int), i as int),
                decreases scan.warnings@.len() - j,
            {
                let w = scan.warnings[j];
                warnings.push(FileWarning { file_index: i, line_number: w.line_number, error: w.error });
                assert(file_warnings(scan.warnings@.take(j + 1), i as int) =~= file_warnings(scan.warnings@.take(j as int), i as int).push(FileWarning { file_index: i, line_number: w.line_number, error: w.error }));
                assert(scan.warnings@.take(j + 1).drop_last() =~= scan.warnings@.take(j as int));
                j = j + 1;
            }
            assert(scan.warnings@.take(scan.warnings@.len() as int) =~= scan.warnings@);
            assert(all_entries(scans) == all_entries(old_scans) + scan.entries@);
            assert(all_warnings(scans) == all_warnings(old_scans) + file_warnings(scan.warnings@, i as int));
            i = i + 1;
        }
        let ghost unsorted = all@;
        let entries = sort_newest_first(all);
        assert forall|i: int| 0 <= i < entries@.len() implies #[trigger] entries@[i].wf() by {
            let order = choose|order: Seq<usize>|
                is_permutation(order, unsorted.len()) && forall|k: int| 0 <= k < entries@.len() ==> #[trigger] entries@[k] == unsorted[order[k] as int];
            assert(entries@[i] == unsorted[order[i] as int]);
        }
        let r = LoadResult { entries, warnings, file_count: files.len() };
        assert(load_scans(files@, scans, sets));
        r
    }

    /// The record, skip or error that a line's fields give, given the
    /// moment its timestamp names (`when`).
    pub fn record_from_fields(
        &self,
        f: &LineFields,
        when: Option<Timestamp>,
        session_id: &Option<String>,
        local: &mut DedupKeys,
        global: &mut DedupKeys,
    ) -> (r: Result<Option<UsageEntry>, LineError>)
        ensures
            line_outcome(*f, when, *session_id, old(local)@, old(global)@, r, final(local)@, final(global)@),
    {
        if f.timestamp.is_none() {
            return Err(LineError::MissingTimestamp);
        }
        let t = match when {
            Some(t) => t,
            None => {
                return Err(LineError::InvalidTimestamp);
            },
        };
        if !(t.nanos < 2_000_000_000 && 1 <= t.month && t.month <= 12 && 1 <= t.day && t.day <= 31) {
            return Err(LineError::InvalidTimestamp);
        }
        if !f.has_message {
            return Err(LineError::MissingMessage);
        }
        if !f.has_usage {
            return Ok(None);
        }
        let input_tokens = count_exec(f.input_tokens);
        let output_tokens = count_exec(f.output_tokens);
        let cache_read_tokens = count_exec(f.cache_read_tokens);
        let cache_creation_tokens = count_exec(f.cache_creation_tokens);
        if input_tokens == 0 && output_tokens == 0 && cache_read_tokens == 0 && cache_creation_tokens == 0 {
            return Ok(None);
        }
        match (&f.message_id, &f.request_id) {
            (Some(m), Some(q)) => {
                let key = join_identity(m.as_str(), q.as_str());
                if local.contains(key.as_str()) || global.contains(key.as_str()) {
                    return Ok(None);
                }
                local.insert(key.clone());
                global.insert(key);
            },
            _ => {},
        }
        let model = match &f.model {
            Some(m) => m.clone(),
            None => String::from_str("unknown"),
        };
        let priced = self.cost_calculator.calculate_cost(
            model.as_str(),
            input_tokens,
            output_tokens,
            cache_read_tokens,
            cache_creation_tokens,
        );
        let cost = match &f.cost_usd {
            Some(text) => match parse_amount_nanos(text.as_str()) {
                Some(c) => c,
                None => priced,
            },
            None => priced,
        };
        Ok(
            Some(
                UsageEntry {
                    timestamp: t,
                    model,
                    project_path: copy_opt(&f.cwd),
                    session_id: copy_opt(session_id),
                    request_id: copy_opt(&f.request_id),
                    input_tokens,
                    output_tokens,
                    cache_read_tokens,
                    cache_creation_tokens,
                    cost,
                },
            ),
        )
    }
}

} // verus!
