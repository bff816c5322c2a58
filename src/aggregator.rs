//! Roll-ups of a record list: global totals and the per-model,
//! per-project, per-session and per-day views.

use vstd::prelude::*;
use vstd::hash_set::StringHashSet;
use crate::grouping::{
    Groups, KeyKind, Measure, first_with_key, group_entries, group_sum, groups_of, key_exec, key_of,
    latest_in_group, lemma_group_sum_le_total, total_sum, total_tokens, totals_fit,
};
use crate::models::{lemma_date_text_order, DailyUsage, ModelStats, ProjectStats, SessionStats, Timestamp, TimeRange, UsageEntry, UsageStats};
use crate::paths::{extract_project_name, project_name_of};
use crate::pricing::{CostCalculator, display_name_of};
use crate::text::text_lt;
use crate::sorting::{ascending_order, is_permutation, lemma_reversed_permutation, listed, reversed};

verus! {

/// Some record of `s` has key `k`.
pub open spec fn key_occurs(s: Seq<UsageEntry>, kind: KeyKind, k: Seq<char>) -> bool {
    exists|i: int| 0 <= i < s.len() && key_of(s[i], kind) == k
}

/// `ks` lists each key of `s` exactly once, and nothing else.
pub open spec fn lists_keys(s: Seq<UsageEntry>, kind: KeyKind, ks: Seq<Seq<char>>) -> bool {
    &&& forall|a: int, b: int| 0 <= a < b < ks.len() ==> ks[a] != ks[b]
    &&& forall|j: int| 0 <= j < ks.len() ==> #[trigger] key_occurs(s, kind, ks[j])
    &&& forall|i: int| 0 <= i < s.len() ==> ks.contains(#[trigger] key_of(s[i], kind))
}

/// Groups listed in the order `order` list every key once.
proof fn lemma_sorted_groups(s: Seq<UsageEntry>, kind: KeyKind, g: Groups, order: Seq<usize>, ks: Seq<Seq<char>>)
    requires
        groups_of(g, s, kind),
        is_permutation(order, g.keys@.len()),
        ks.len() == order.len(),
        forall|t: int| 0 <= t < ks.len() ==> #[trigger] ks[t] == g.keys@[order[t] as int]@,
    ensures
        lists_keys(s, kind, ks),
{
    assert forall|j: int| 0 <= j < ks.len() implies #[trigger] key_occurs(s, kind, ks[j]) by {
        let gj = order[j] as int;
        assert(first_with_key(s, kind, g.keys@[gj]@, g.firsts@[gj] as int));
    }
    assert forall|i: int| 0 <= i < s.len() implies ks.contains(#[trigger] key_of(s[i], kind)) by {
        let gj = choose|gj: int| 0 <= gj < g.keys@.len() && (#[trigger] g.keys@[gj])@ == key_of(s[i], kind);
        assert(listed(order, gj));
        let t = choose|t: int| 0 <= t < order.len() && order[t] == gj;
        assert(ks[t] == key_of(s[i], kind));
    }
}

/// Two group sums of token measures fit together in a `u64`.
proof fn lemma_token_pair_fits(s: Seq<UsageEntry>, kind: KeyKind, k: Seq<char>)
    requires
        totals_fit(s),
    ensures
        group_sum(s, kind, k, Measure::Input) + group_sum(s, kind, k, Measure::Output) + group_sum(
            s,
            kind,
            k,
            Measure::CacheRead,
        ) + group_sum(s, kind, k, Measure::CacheCreation) <= u64::MAX,
        group_sum(s, kind, k, Measure::Input) + group_sum(s, kind, k, Measure::Output) <= u64::MAX,
{
    lemma_group_sum_le_total(s, kind, k, Measure::Input);
    lemma_group_sum_le_total(s, kind, k, Measure::Output);
    lemma_group_sum_le_total(s, kind, k, Measure::CacheRead);
    lemma_group_sum_le_total(s, kind, k, Measure::CacheCreation);
}

/// `r` is the row of model `r.model` over `s`.
pub open spec fn model_row(s: Seq<UsageEntry>, r: ModelStats) -> bool {
    let k = r.model@;
    &&& r.display_name@ == display_name_of(k)
    &&& r.total_cost == group_sum(s, KeyKind::Model, k, Measure::Cost)
    &&& r.input_tokens == group_sum(s, KeyKind::Model, k, Measure::Input)
    &&& r.output_tokens == group_sum(s, KeyKind::Model, k, Measure::Output)
    &&& r.cache_read_tokens == group_sum(s, KeyKind::Model, k, Measure::CacheRead)
    &&& r.cache_creation_tokens == group_sum(s, KeyKind::Model, k, Measure::CacheCreation)
    &&& r.total_tokens == r.input_tokens + r.output_tokens
    &&& r.request_count == group_sum(s, KeyKind::Model, k, Measure::Requests)
}

/// The model ids of a list of model rows.
pub open spec fn model_keys(rows: Seq<ModelStats>) -> Seq<Seq<char>> {
    rows.map_values(|r: ModelStats| r.model@)
}

/// `rows` is the per-model view of `s`: one row per model, most expensive first.
pub open spec fn model_stats_of(s: Seq<UsageEntry>, rows: Seq<ModelStats>) -> bool {
    &&& forall|j: int| 0 <= j < rows.len() ==> model_row(s, #[trigger] rows[j])
    &&& lists_keys(s, KeyKind::Model, model_keys(rows))
    &&& forall|a: int, b: int| 0 <= a < b < rows.len() ==> rows[a].total_cost >= rows[b].total_cost
}

/// The distinct session ids of the records whose resolved project path
/// (`Unknown Project` when missing) is `k`.
pub open spec fn project_sessions(s: Seq<UsageEntry>, k: Seq<char>) -> Set<Seq<char>>
    decreases s.len(),
{
    if s.len() == 0 {
        Set::empty()
    } else {
        let prev = project_sessions(s.drop_last(), k);
        match s.last().session_id {
            Some(q) => if key_of(s.last(), KeyKind::Project) == k {
                prev.insert(q@)
            } else {
                prev
            },
            None => prev,
        }
    }
}

/// `r` is the row of project path `r.project_path` over `s`.
pub open spec fn project_row(s: Seq<UsageEntry>, r: ProjectStats) -> bool {
    let k = r.project_path@;
    &&& r.project_name@ == project_name_of(k)
    &&& r.total_cost == group_sum(s, KeyKind::Project, k, Measure::Cost)
    &&& r.input_tokens == group_sum(s, KeyKind::Project, k, Measure::Input)
    &&& r.output_tokens == group_sum(s, KeyKind::Project, k, Measure::Output)
    &&& r.cache_read_tokens == group_sum(s, KeyKind::Project, k, Measure::CacheRead)
    &&& r.cache_creation_tokens == group_sum(s, KeyKind::Project, k, Measure::CacheCreation)
    &&& r.total_tokens == r.input_tokens + r.output_tokens + r.cache_read_tokens + r.cache_creation_tokens
    &&& r.request_count == group_sum(s, KeyKind::Project, k, Measure::Requests)
    &&& r.session_count == project_sessions(s, k).len()
    &&& latest_in_group(s, KeyKind::Project, k) == Some(r.last_used)
}

pub open spec fn project_keys(rows: Seq<ProjectStats>) -> Seq<Seq<char>> {
    rows.map_values(|r: ProjectStats| r.project_path@)
}

/// `rows` is the per-project view of `s`: one row per resolved project
/// path, most expensive first.
pub open spec fn project_stats_of(s: Seq<UsageEntry>, rows: Seq<ProjectStats>) -> bool {
    &&& forall|j: int| 0 <= j < rows.len() ==> project_row(s, #[trigger] rows[j])
    &&& lists_keys(s, KeyKind::Project, project_keys(rows))
    &&& forall|a: int, b: int| 0 <= a < b < rows.len() ==> rows[a].total_cost >= rows[b].total_cost
}

/// The session id shown for a record, `Unknown` when missing.
pub open spec fn session_label(e: UsageEntry) -> Seq<char> {
    match e.session_id {
        Some(q) => q@,
        None => "Unknown"@,
    }
}

/// `r` is the row of session key `r.session_key` over `s`; its labels come
/// from the first record of the session.
pub open spec fn session_row(s: Seq<UsageEntry>, r: SessionStats) -> bool {
    let k = r.session_key@;
    &&& exists|f: int| #[trigger] first_with_key(s, KeyKind::Session, k, f)
        && r.session_id@ == session_label(s[f]) && r.project_path@ == project_key_of(s[f])
    &&& r.total_cost == group_sum(s, KeyKind::Session, k, Measure::Cost)
    &&& r.input_tokens == group_sum(s, KeyKind::Session, k, Measure::Input)
    &&& r.output_tokens == group_sum(s, KeyKind::Session, k, Measure::Output)
    &&& r.cache_read_tokens == group_sum(s, KeyKind::Session, k, Measure::CacheRead)
    &&& r.cache_creation_tokens == group_sum(s, KeyKind::Session, k, Measure::CacheCreation)
    &&& r.total_tokens == r.input_tokens + r.output_tokens + r.cache_read_tokens + r.cache_creation_tokens
    &&& r.request_count == group_sum(s, KeyKind::Session, k, Measure::Requests)
    &&& latest_in_group(s, KeyKind::Session, k) == Some(r.timestamp)
}

/// The project path of a record, `Unknown Project` when missing.
pub open spec fn project_key_of(e: UsageEntry) -> Seq<char> {
    key_of(e, KeyKind::Project)
}

pub open spec fn session_keys(rows: Seq<SessionStats>) -> Seq<Seq<char>> {
    rows.map_values(|r: SessionStats| r.session_key@)
}

/// `rows` is the per-session view of `s`: one row per session key, the
/// most recently used first.
pub open spec fn session_stats_of(s: Seq<UsageEntry>, rows: Seq<SessionStats>) -> bool {
    &&& forall|j: int| 0 <= j < rows.len() ==> session_row(s, #[trigger] rows[j])
    &&& lists_keys(s, KeyKind::Session, session_keys(rows))
    &&& forall|a: int, b: int| 0 <= a < b < rows.len() ==> rows[a].timestamp.instant() >= rows[b].timestamp.instant()
}

/// The model ids used on day `k`, in order of first use.
pub open spec fn day_models(s: Seq<UsageEntry>, k: Seq<char>) -> Seq<Seq<char>>
    decreases s.len(),
{
    if s.len() == 0 {
        Seq::empty()
    } else {
        let prev = day_models(s.drop_last(), k);
        let e = s.last();
        if key_of(e, KeyKind::Day) == k && !prev.contains(e.model@) {
            prev.push(e.model@)
        } else {
            prev
        }
    }
}

/// The texts of a list of strings.
pub open spec fn texts(v: Seq<String>) -> Seq<Seq<char>> {
    v.map_values(|m: String| m@)
}

/// `r` is the row of date `r.date` over `s`.
pub open spec fn daily_row(s: Seq<UsageEntry>, r: DailyUsage) -> bool {
    let k = r.date@;
    &&& r.total_cost == group_sum(s, KeyKind::Day, k, Measure::Cost)
    &&& r.input_tokens == group_sum(s, KeyKind::Day, k, Measure::Input)
    &&& r.output_tokens == group_sum(s, KeyKind::Day, k, Measure::Output)
    &&& r.cache_read_tokens == group_sum(s, KeyKind::Day, k, Measure::CacheRead)
    &&& r.cache_creation_tokens == group_sum(s, KeyKind::Day, k, Measure::CacheCreation)
    &&& r.total_tokens == r.input_tokens + r.output_tokens + r.cache_read_tokens + r.cache_creation_tokens
    &&& r.request_count == group_sum(s, KeyKind::Day, k, Measure::Requests)
    &&& texts(r.models_used@) == day_models(s, k)
}

pub open spec fn daily_keys(rows: Seq<DailyUsage>) -> Seq<Seq<char>> {
    rows.map_values(|r: DailyUsage| r.date@)
}

/// Every record dated `x` falls on an earlier day than every record dated `y`.
pub open spec fn days_in_order(s: Seq<UsageEntry>, x: Seq<char>, y: Seq<char>) -> bool {
    forall|i: int, j: int|
        0 <= i < s.len() && 0 <= j < s.len() && #[trigger] key_of(s[i], KeyKind::Day) == x && #[trigger] key_of(
            s[j],
            KeyKind::Day,
        ) == y ==> s[i].timestamp.date_number() < s[j].timestamp.date_number()
}

/// `rows` is the per-day view of `s`: one row per date, earliest day
/// first (for four-digit years this is ascending order of the date text).
pub open spec fn daily_usage_of(s: Seq<UsageEntry>, rows: Seq<DailyUsage>) -> bool {
    &&& forall|j: int| 0 <= j < rows.len() ==> daily_row(s, #[trigger] rows[j])
    &&& lists_keys(s, KeyKind::Day, daily_keys(rows))
    &&& forall|a: int, b: int| 0 <= a < b < rows.len() ==> #[trigger] days_in_order(s, rows[a].date@, rows[b].date@)
}

/// The latest timestamp of a group belongs to one of its records.
proof fn lemma_latest_member(s: Seq<UsageEntry>, kind: KeyKind, k: Seq<char>)
    requires
        latest_in_group(s, kind, k) is Some,
    ensures
        exists|i: int| 0 <= i < s.len() && key_of(s[i], kind) == k && s[i].timestamp == latest_in_group(s, kind, k)->0,
    decreases s.len(),
{
    let prev = latest_in_group(s.drop_last(), kind, k);
    if latest_in_group(s, kind, k) == prev {
        lemma_latest_member(s.drop_last(), kind, k);
        let i = choose|i: int| 0 <= i < s.drop_last().len() && key_of(s.drop_last()[i], kind) == k && s.drop_last()[i].timestamp == prev->0;
        assert(s[i] == s.drop_last()[i]);
    } else {
        assert(key_of(s[s.len() - 1], kind) == k);
    }
}

/// Timestamps with one date number have one date text.
proof fn lemma_date_number_text(t1: Timestamp, t2: Timestamp)
    requires
        t1.wf(),
        t2.wf(),
        t1.date_number() == t2.date_number(),
    ensures
        t1.date_text() == t2.date_text(),
{
    let (y1, m1, d1) = (t1.year as int, t1.month as int, t1.day as int);
    let (y2, m2, d2) = (t2.year as int, t2.month as int, t2.day as int);
    assert(y1 == y2 && m1 == m2 && d1 == d2) by (nonlinear_arith)
        requires
            y1 * 10000 + m1 * 100 + d1 == y2 * 10000 + m2 * 100 + d2,
            1 <= m1 <= 12,
            1 <= m2 <= 12,
            1 <= d1 <= 31,
            1 <= d2 <= 31,
    ;
}

/// Whether `x` is among the texts of `v`.
fn contains_text(v: &Vec<String>, x: &String) -> (r: bool)
    ensures
        r == texts(v@).contains(x@),
{
    let mut i: usize = 0;
    while i < v.len()
        invariant
            i <= v@.len(),
            forall|k: int| 0 <= k < i ==> v@[k]@ != x@,
        decreases v@.len() - i,
    {
        if v[i] == *x {
            assert(texts(v@)[i as int] == x@);
            return true;
        }
        i = i + 1;
    }
    assert forall|k: int| 0 <= k < texts(v@).len() implies texts(v@)[k] != x@ by {
        assert(texts(v@)[k] == v@[k]@);
    }
    false
}

/// The distinct session ids of `s` (records without one do not count).
pub open spec fn session_ids(s: Seq<UsageEntry>) -> Set<Seq<char>>
    decreases s.len(),
{
    if s.len() == 0 {
        Set::empty()
    } else {
        let prev = session_ids(s.drop_last());
        match s.last().session_id {
            Some(q) => prev.insert(q@),
            None => prev,
        }
    }
}

/// The distinct UTC dates of `s`.
pub open spec fn day_set(s: Seq<UsageEntry>) -> Set<Seq<char>>
    decreases s.len(),
{
    if s.len() == 0 {
        Set::empty()
    } else {
        day_set(s.drop_last()).insert(s.last().timestamp.date_text())
    }
}

/// `r` is the full set of views of `s`.
pub open spec fn usage_stats_of(s: Seq<UsageEntry>, r: UsageStats) -> bool {
    &&& r.total_cost == total_sum(s, Measure::Cost)
    &&& r.total_input_tokens == total_sum(s, Measure::Input)
    &&& r.total_output_tokens == total_sum(s, Measure::Output)
    &&& r.total_cache_read_tokens == total_sum(s, Measure::CacheRead)
    &&& r.total_cache_creation_tokens == total_sum(s, Measure::CacheCreation)
    &&& r.total_tokens == total_tokens(s)
    &&& r.session_count == session_ids(s).len()
    &&& r.entries@ == s
    &&& model_stats_of(s, r.model_stats@)
    &&& project_stats_of(s, r.project_stats@)
    &&& session_stats_of(s, r.session_stats@)
    &&& daily_usage_of(s, r.daily_usage@)
}

/// The records of `s` at or after `cutoff` (an `instant`), in order.
pub open spec fn since(s: Seq<UsageEntry>, cutoff: int) -> Seq<UsageEntry>
    decreases s.len(),
{
    if s.len() == 0 {
        Seq::empty()
    } else {
        let prev = since(s.drop_last(), cutoff);
        if s.last().timestamp.instant() >= cutoff {
            prev.push(s.last())
        } else {
            prev
        }
    }
}

/// The start of a window ending at `now`, none for all time.
pub open spec fn cutoff_of(range: TimeRange, now: Timestamp) -> Option<int> {
    match range.days() {
        Some(d) => Some(now.instant() - d * 86400 * 2_000_000_000),
        None => None,
    }
}

/// The records of `s` inside the window of `range` ending at `now`.
pub open spec fn in_range(s: Seq<UsageEntry>, range: TimeRange, now: Timestamp) -> Seq<UsageEntry> {
    match cutoff_of(range, now) {
        Some(c) => since(s, c),
        None => s,
    }
}

proof fn lemma_session_ids_finite(s: Seq<UsageEntry>)
    ensures
        session_ids(s).finite(),
    decreases s.len(),
{
    if s.len() > 0 {
        lemma_session_ids_finite(s.drop_last());
    }
}

proof fn lemma_day_set_finite(s: Seq<UsageEntry>)
    ensures
        day_set(s).finite(),
    decreases s.len(),
{
    if s.len() > 0 {
        lemma_day_set_finite(s.drop_last());
    }
}

/// A copy of a record list.
fn copy_entries(entries: &Vec<UsageEntry>) -> (r: Vec<UsageEntry>)
    ensures
        r@ == entries@,
{
    let mut r: Vec<UsageEntry> = Vec::new();
    let mut i: usize = 0;
    while i < entries.len()
        invariant
            i <= entries@.len(),
            r@ == entries@.take(i as int),
        decreases entries@.len() - i,
    {
        r.push(entries[i].copy());
        assert(r@ =~= entries@.take(i + 1));
        i = i + 1;
    }
    assert(entries@.take(entries@.len() as int) =~= entries@);
    r
}

/// Computes the views of a record list.
pub struct UsageAggregator {
    cost_calculator: CostCalculator,
}

impl UsageAggregator {
    pub fn new() -> (r: Self) {
        UsageAggregator { cost_calculator: CostCalculator::new() }
    }

    /// Global totals and the four views.
    pub fn calculate_usage_stats(&self, entries: &Vec<UsageEntry>) -> (r: UsageStats)
        requires
            forall|i: int| 0 <= i < entries@.len() ==> (#[trigger] entries@[i]).wf(),
            totals_fit(entries@),
        ensures
            usage_stats_of(entries@, r),
    {
        let ghost s = entries@;
        let mut cost: u64 = 0;
        let mut input: u64 = 0;
        let mut output: u64 = 0;
        let mut cache_read: u64 = 0;
        let mut cache_creation: u64 = 0;
        let mut sessions = StringHashSet::new();
        let mut i: usize = 0;
        while i < entries.len()
            invariant
                s == entries@,
                totals_fit(s),
                i <= s.len(),
                cost == total_sum(s.take(i as int), Measure::Cost),
                input == total_sum(s.take(i as int), Measure::Input),
                output == total_sum(s.take(i as int), Measure::Output),
                cache_read == total_sum(s.take(i as int), Measure::CacheRead),
                cache_creation == total_sum(s.take(i as int), Measure::CacheCreation),
                sessions@ == session_ids(s.take(i as int)),
            decreases s.len() - i,
        {
            proof {
                crate::grouping::lemma_group_sum_step(s, KeyKind::Model, Seq::empty(), Measure::Cost, i as int);
                crate::grouping::lemma_group_sum_step(s, KeyKind::Model, Seq::empty(), Measure::Input, i as int);
                crate::grouping::lemma_group_sum_step(s, KeyKind::Model, Seq::empty(), Measure::Output, i as int);
                crate::grouping::lemma_group_sum_step(s, KeyKind::Model, Seq::empty(), Measure::CacheRead, i as int);
                crate::grouping::lemma_group_sum_step(s, KeyKind::Model, Seq::empty(), Measure::CacheCreation, i as int);
                crate::grouping::lemma_total_prefix(s, Measure::Cost, i + 1);
                crate::grouping::lemma_total_prefix(s, Measure::Input, i + 1);
                crate::grouping::lemma_total_prefix(s, Measure::Output, i + 1);
                crate::grouping::lemma_total_prefix(s, Measure::CacheRead, i + 1);
                crate::grouping::lemma_total_prefix(s, Measure::CacheCreation, i + 1);
                crate::grouping::lemma_total_nonneg(s, Measure::Input);
                crate::grouping::lemma_total_nonneg(s, Measure::Output);
                crate::grouping::lemma_total_nonneg(s, Measure::CacheRead);
                crate::grouping::lemma_total_nonneg(s, Measure::CacheCreation);
                assert(s.take(i + 1).drop_last() =~= s.take(i as int));
            }
            let e = &entries[i];
            cost = cost + e.cost;
            input = input + e.input_tokens as u64;
            output = output + e.output_tokens as u64;
            cache_read = cache_read + e.cache_read_tokens as u64;
            cache_creation = cache_creation + e.cache_creation_tokens as u64;
            match &e.session_id {
                Some(q) => {
                    sessions.insert(q.clone());
                },
                None => {},
            }
            i = i + 1;
        }
        assert(s.take(s.len() as int) =~= s);
        proof {
            lemma_session_ids_finite(s);
        }
        UsageStats {
            total_cost: cost,
            total_input_tokens: input,
            total_output_tokens: output,
            total_cache_read_tokens: cache_read,
            total_cache_creation_tokens: cache_creation,
            total_tokens: input + output + cache_read + cache_creation,
            session_count: sessions.len(),
            entries: copy_entries(entries),
            model_stats: self.calculate_model_stats(entries),
            project_stats: self.calculate_project_stats(entries),
            session_stats: self.calculate_session_stats(entries),
            daily_usage: self.calculate_daily_usage(entries),
        }
    }

    /// The same as `calculate_usage_stats`, taking the list by value.
    pub fn aggregate_entries(&self, entries: Vec<UsageEntry>) -> (r: UsageStats)
        requires
            forall|i: int| 0 <= i < entries@.len() ==> (#[trigger] entries@[i]).wf(),
            totals_fit(entries@),
        ensures
            usage_stats_of(entries@, r),
    {
        self.calculate_usage_stats(&entries)
    }

    /// Whether the totals of a record list fit the views' integers.
    pub fn totals_fit(&self, entries: &Vec<UsageEntry>) -> (r: bool)
        ensures
            r == totals_fit(entries@),
    {
        let ghost s = entries@;
        let mut cost: u128 = 0;
        let mut tokens: u128 = 0;
        let mut i: usize = 0;
        while i < entries.len()
            invariant
                s == entries@,
                i <= s.len(),
                cost == total_sum(s.take(i as int), Measure::Cost),
                tokens == total_tokens(s.take(i as int)),
                cost <= u64::MAX,
                tokens <= u64::MAX,
            decreases s.len() - i,
        {
            proof {
                crate::grouping::lemma_group_sum_step(s, KeyKind::Model, Seq::empty(), Measure::Cost, i as int);
                crate::grouping::lemma_group_sum_step(s, KeyKind::Model, Seq::empty(), Measure::Input, i as int);
                crate::grouping::lemma_group_sum_step(s, KeyKind::Model, Seq::empty(), Measure::Output, i as int);
                crate::grouping::lemma_group_sum_step(s, KeyKind::Model, Seq::empty(), Measure::CacheRead, i as int);
                crate::grouping::lemma_group_sum_step(s, KeyKind::Model, Seq::empty(), Measure::CacheCreation, i as int);
            }
            let e = &entries[i];
            cost = cost + e.cost as u128;
            tokens = tokens + e.input_tokens as u128 + e.output_tokens as u128 + e.cache_read_tokens as u128
                + e.cache_creation_tokens as u128;
            if cost > u64::MAX as u128 || tokens > u64::MAX as u128 {
                proof {
                    lemma_prefix_monotone(s, i + 1);
                }
                return false;
            }
            i = i + 1;
        }
        assert(s.take(s.len() as int) =~= s);
        true
    }

    /// The number of distinct UTC dates.
    pub fn count_active_days(&self, entries: &Vec<UsageEntry>) -> (r: usize)
        requires
            forall|i: int| 0 <= i < entries@.len() ==> (#[trigger] entries@[i]).wf(),
        ensures
            r == day_set(entries@).len(),
    {
        let ghost s = entries@;
        let mut days = StringHashSet::new();
        let mut i: usize = 0;
        while i < entries.len()
            invariant
                s == entries@,
                forall|i: int| 0 <= i < s.len() ==> (#[trigger] s[i]).wf(),
                i <= s.len(),
                days@ == day_set(s.take(i as int)),
            decreases s.len() - i,
        {
            assert(s.take(i + 1).drop_last() =~= s.take(i as int));
            days.insert(entries[i].timestamp.date_key());
            i = i + 1;
        }
        assert(s.take(s.len() as int) =~= s);
        proof {
            lemma_day_set_finite(s);
        }
        days.len()
    }

    /// The records at or after `cutoff`, an `instant`, in their order.
    pub fn filter_since(&self, entries: &Vec<UsageEntry>, cutoff: i128) -> (r: Vec<UsageEntry>)
        ensures
            r@ == since(entries@, cutoff as int),
    {
        let ghost s = entries@;
        let mut r: Vec<UsageEntry> = Vec::new();
        let mut i: usize = 0;
        while i < entries.len()
            invariant
                s == entries@,
                i <= s.len(),
                r@ == since(s.take(i as int), cutoff as int),
            decreases s.len() - i,
        {
            assert(s.take(i + 1).drop_last() =~= s.take(i as int));
            if entries[i].timestamp.instant_key() >= cutoff {
                r.push(entries[i].copy());
            }
            i = i + 1;
        }
        assert(s.take(s.len() as int) =~= s);
        r
    }

    /// The records inside the window of `range` that ends at `now`.
    pub fn filter_at(&self, entries: &Vec<UsageEntry>, time_range: TimeRange, now: Timestamp) -> (r: Vec<UsageEntry>)
        ensures
            r@ == in_range(entries@, time_range, now),
    {
        let days: i128 = match time_range {
            TimeRange::AllTime => {
                return copy_entries(entries);
            },
            TimeRange::Last7Days => 7,
            TimeRange::Last30Days => 30,
        };
        let cutoff = now.instant_key() - days * 86400 * crate::models::INSTANT_UNITS_PER_SECOND;
        self.filter_since(entries, cutoff)
    }

    /// The records inside the window of `range` that ends now (read once
    /// per call).
    pub fn filter_by_time_range(&self, entries: &Vec<UsageEntry>, time_range: TimeRange) -> (r: Vec<UsageEntry>)
        ensures
            time_range == TimeRange::AllTime ==> r@ == entries@,
            exists|now: Timestamp| r@ == in_range(entries@, time_range, now),
    {
        let now = crate::clock::now_utc();
        self.filter_at(entries, time_range, now)
    }

    /// One row per model, most expensive first.
    pub fn calculate_model_stats(&self, entries: &Vec<UsageEntry>) -> (r: Vec<ModelStats>)
        requires
            forall|i: int| 0 <= i < entries@.len() ==> (#[trigger] entries@[i]).wf(),
            totals_fit(entries@),
        ensures
            model_stats_of(entries@, r@),
    {
        let ghost s = entries@;
        let g = group_entries(entries, KeyKind::Model);
        let m = g.keys.len();
        let mut sort_keys: Vec<i128> = Vec::new();
        let mut j: usize = 0;
        while j < m
            invariant
                m == g.keys@.len() == g.tallies@.len(),
                j <= m,
                sort_keys@.len() == j,
                forall|k: int| 0 <= k < j ==> #[trigger] sort_keys@[k] == g.tallies@[k].cost,
            decreases m - j,
        {
            sort_keys.push(g.tallies[j].cost as i128);
            j = j + 1;
        }
        let order = ascending_order(&sort_keys);
        let ghost rev = reversed(order@);
        let mut rows: Vec<ModelStats> = Vec::new();
        let mut t: usize = 0;
        while t < m
            invariant
                s == entries@,
                totals_fit(s),
                groups_of(g, s, KeyKind::Model),
                m == g.keys@.len(),
                sort_keys@.len() == m,
                forall|k: int| 0 <= k < m ==> #[trigger] sort_keys@[k] == g.tallies@[k].cost,
                is_permutation(order@, m as nat),
                rev == reversed(order@),
                t <= m,
                rows@.len() == t,
                forall|k: int| 0 <= k < t ==> #[trigger] rows@[k].model@ == g.keys@[rev[k] as int]@,
                forall|k: int| 0 <= k < t ==> model_row(s, #[trigger] rows@[k]),
                forall|k: int| 0 <= k < t ==> (#[trigger] rows@[k]).total_cost == g.tallies@[rev[k] as int].cost,
            decreases m - t,
        {
            let j = order[m - 1 - t];
            let tal = g.tallies[j];
            let ghost k = g.keys@[j as int]@;
            proof {
                lemma_token_pair_fits(s, KeyKind::Model, k);
            }
            let row = ModelStats {
                model: g.keys[j].clone(),
                display_name: self.cost_calculator.get_model_display_name(g.keys[j].as_str()),
                total_cost: tal.cost,
                total_tokens: tal.input + tal.output,
                input_tokens: tal.input,
                output_tokens: tal.output,
                cache_read_tokens: tal.cache_read,
                cache_creation_tokens: tal.cache_creation,
                request_count: tal.requests,
            };
            rows.push(row);
            t = t + 1;
        }
        proof {
            lemma_reversed_permutation(order@, m as nat);
            lemma_sorted_groups(s, KeyKind::Model, g, rev, model_keys(rows@));
            assert forall|a: int, b: int| 0 <= a < b < rows@.len() implies rows@[a].total_cost >= rows@[b].total_cost by {
                assert(sort_keys@[order@[m - 1 - b] as int] <= sort_keys@[order@[m - 1 - a] as int]);
            }
        }
        rows
    }

    /// The distinct session ids of the records whose resolved project path
    /// (in `entry_keys`) is `key`.
    fn count_project_sessions(entries: &Vec<UsageEntry>, entry_keys: &Vec<String>, key: &String) -> (r: usize)
        requires
            entry_keys@.len() == entries@.len(),
            forall|i: int| 0 <= i < entries@.len() ==> (#[trigger] entry_keys@[i])@ == key_of(entries@[i], KeyKind::Project),
        ensures
            r == project_sessions(entries@, key@).len(),
    {
        let ghost s = entries@;
        let mut seen = StringHashSet::new();
        let mut i: usize = 0;
        while i < entries.len()
            invariant
                s == entries@,
                entry_keys@.len() == s.len(),
                forall|i: int| 0 <= i < s.len() ==> (#[trigger] entry_keys@[i])@ == key_of(s[i], KeyKind::Project),
                i <= s.len(),
                seen@ == project_sessions(s.take(i as int), key@),
            decreases s.len() - i,
        {
            assert(s.take(i + 1).drop_last() =~= s.take(i as int));
            assert(s.take(i + 1).last() == s[i as int]);
            match &entries[i].session_id {
                Some(q) => {
                    if entry_keys[i] == *key {
                        seen.insert(q.clone());
                    }
                },
                None => {},
            }
            i = i + 1;
        }
        assert(s.take(s.len() as int) =~= s);
        proof {
            lemma_project_sessions_finite(s, key@);
        }
        seen.len()
    }

    /// One row per resolved project path, most expensive first.
    pub fn calculate_project_stats(&self, entries: &Vec<UsageEntry>) -> (r: Vec<ProjectStats>)
        requires
            forall|i: int| 0 <= i < entries@.len() ==> (#[trigger] entries@[i]).wf(),
            totals_fit(entries@),
        ensures
            project_stats_of(entries@, r@),
    {
        let ghost s = entries@;
        let g = group_entries(entries, KeyKind::Project);
        let m = g.keys.len();
        let mut sort_keys: Vec<i128> = Vec::new();
        let mut j: usize = 0;
        while j < m
            invariant
                m == g.keys@.len() == g.tallies@.len(),
                j <= m,
                sort_keys@.len() == j,
                forall|k: int| 0 <= k < j ==> #[trigger] sort_keys@[k] == g.tallies@[k].cost,
            decreases m - j,
        {
            sort_keys.push(g.tallies[j].cost as i128);
            j = j + 1;
        }
        let order = ascending_order(&sort_keys);
        let ghost rev = reversed(order@);
        let mut rows: Vec<ProjectStats> = Vec::new();
        let mut t: usize = 0;
        while t < m
            invariant
                s == entries@,
                totals_fit(s),
                groups_of(g, s, KeyKind::Project),
                m == g.keys@.len(),
                sort_keys@.len() == m,
                forall|k: int| 0 <= k < m ==> #[trigger] sort_keys@[k] == g.tallies@[k].cost,
                is_permutation(order@, m as nat),
                rev == reversed(order@),
                t <= m,
                rows@.len() == t,
                forall|k: int| 0 <= k < t ==> #[trigger] rows@[k].project_path@ == g.keys@[rev[k] as int]@,
                forall|k: int| 0 <= k < t ==> project_row(s, #[trigger] rows@[k]),
                forall|k: int| 0 <= k < t ==> (#[trigger] rows@[k]).total_cost == g.tallies@[rev[k] as int].cost,
            decreases m - t,
        {
            let j = order[m - 1 - t];
            let tal = g.tallies[j];
            let ghost k = g.keys@[j as int]@;
            proof {
                lemma_token_pair_fits(s, KeyKind::Project, k);
            }
            let row = ProjectStats {
                project_name: extract_project_name(g.keys[j].as_str()),
                project_path: g.keys[j].clone(),
                total_cost: tal.cost,
                total_tokens: tal.input + tal.output + tal.cache_read + tal.cache_creation,
                input_tokens: tal.input,
                output_tokens: tal.output,
                cache_read_tokens: tal.cache_read,
                cache_creation_tokens: tal.cache_creation,
                request_count: tal.requests,
                session_count: Self::count_project_sessions(entries, &g.entry_keys, &g.keys[j]),
                last_used: g.latest[j],
            };
            rows.push(row);
            t = t + 1;
        }
        proof {
            lemma_reversed_permutation(order@, m as nat);
            lemma_sorted_groups(s, KeyKind::Project, g, rev, project_keys(rows@));
            assert forall|a: int, b: int| 0 <= a < b < rows@.len() implies rows@[a].total_cost >= rows@[b].total_cost by {
                assert(sort_keys@[order@[m - 1 - b] as int] <= sort_keys@[order@[m - 1 - a] as int]);
            }
        }
        rows
    }

    /// One row per session of a project, the most recently used first.
    pub fn calculate_session_stats(&self, entries: &Vec<UsageEntry>) -> (r: Vec<SessionStats>)
        requires
            forall|i: int| 0 <= i < entries@.len() ==> (#[trigger] entries@[i]).wf(),
            totals_fit(entries@),
        ensures
            session_stats_of(entries@, r@),
    {
        let ghost s = entries@;
        let g = group_entries(entries, KeyKind::Session);
        let m = g.keys.len();
        let mut sort_keys: Vec<i128> = Vec::new();
        let mut j: usize = 0;
        while j < m
            invariant
                m == g.keys@.len() == g.latest@.len(),
                j <= m,
                sort_keys@.len() == j,
                forall|k: int| 0 <= k < j ==> #[trigger] sort_keys@[k] == g.latest@[k].instant(),
            decreases m - j,
        {
            sort_keys.push(g.latest[j].instant_key());
            j = j + 1;
        }
        let order = ascending_order(&sort_keys);
        let ghost rev = reversed(order@);
        let mut rows: Vec<SessionStats> = Vec::new();
        let mut t: usize = 0;
        while t < m
            invariant
                s == entries@,
                totals_fit(s),
                groups_of(g, s, KeyKind::Session),
                forall|i: int| 0 <= i < s.len() ==> (#[trigger] s[i]).wf(),
                m == g.keys@.len(),
                sort_keys@.len() == m,
                forall|k: int| 0 <= k < m ==> #[trigger] sort_keys@[k] == g.latest@[k].instant(),
                is_permutation(order@, m as nat),
                rev == reversed(order@),
                t <= m,
                rows@.len() == t,
                forall|k: int| 0 <= k < t ==> #[trigger] rows@[k].session_key@ == g.keys@[rev[k] as int]@,
                forall|k: int| 0 <= k < t ==> session_row(s, #[trigger] rows@[k]),
                forall|k: int| 0 <= k < t ==> (#[trigger] rows@[k]).timestamp == g.latest@[rev[k] as int],
            decreases m - t,
        {
            let j = order[m - 1 - t];
            let tal = g.tallies[j];
            let ghost k = g.keys@[j as int]@;
            let f = g.firsts[j];
            proof {
                lemma_token_pair_fits(s, KeyKind::Session, k);
                assert(first_with_key(s, KeyKind::Session, k, f as int));
            }
            let first = &entries[f];
            let row = SessionStats {
                session_key: g.keys[j].clone(),
                session_id: match &first.session_id {
                    Some(q) => q.clone(),
                    None => String::from_str("Unknown"),
                },
                project_path: key_exec(first, KeyKind::Project),
                total_cost: tal.cost,
                total_tokens: tal.input + tal.output + tal.cache_read + tal.cache_creation,
                input_tokens: tal.input,
                output_tokens: tal.output,
                cache_read_tokens: tal.cache_read,
                cache_creation_tokens: tal.cache_creation,
                request_count: tal.requests,
                timestamp: g.latest[j],
            };
            rows.push(row);
            t = t + 1;
        }
        proof {
            lemma_reversed_permutation(order@, m as nat);
            lemma_sorted_groups(s, KeyKind::Session, g, rev, session_keys(rows@));
            assert forall|a: int, b: int| 0 <= a < b < rows@.len() implies rows@[a].timestamp.instant() >= rows@[b].timestamp.instant() by {
                assert(sort_keys@[order@[m - 1 - b] as int] <= sort_keys@[order@[m - 1 - a] as int]);
            }
        }
        rows
    }

    /// The models of the records whose key (in `entry_keys`) is `key`, in
    /// order of first use.
    fn models_of_day(entries: &Vec<UsageEntry>, entry_keys: &Vec<String>, key: &String) -> (r: Vec<String>)
        requires
            entry_keys@.len() == entries@.len(),
            forall|i: int| 0 <= i < entries@.len() ==> (#[trigger] entry_keys@[i])@ == key_of(entries@[i], KeyKind::Day),
        ensures
            texts(r@) == day_models(entries@, key@),
    {
        let ghost s = entries@;
        let mut models: Vec<String> = Vec::new();
        let mut i: usize = 0;
        while i < entries.len()
            invariant
                s == entries@,
                entry_keys@.len() == s.len(),
                forall|i: int| 0 <= i < s.len() ==> (#[trigger] entry_keys@[i])@ == key_of(s[i], KeyKind::Day),
                i <= s.len(),
                texts(models@) == day_models(s.take(i as int), key@),
            decreases s.len() - i,
        {
            assert(s.take(i + 1).drop_last() =~= s.take(i as int));
            assert(s.take(i + 1).last() == s[i as int]);
            if entry_keys[i] == *key {
                let model = &entries[i].model;
                if !contains_text(&models, model) {
                    models.push(model.clone());
                    assert(texts(models@) =~= texts(models@.drop_last()).push(model@));
                }
            }
            i = i + 1;
        }
        assert(s.take(s.len() as int) =~= s);
        models
    }

    /// The row of group `j` of the per-day grouping.
    fn daily_row_for(entries: &Vec<UsageEntry>, g: &Groups, j: usize) -> (r: DailyUsage)
        requires
            totals_fit(entries@),
            forall|i: int| 0 <= i < entries@.len() ==> (#[trigger] entries@[i]).wf(),
            groups_of(*g, entries@, KeyKind::Day),
            j < g.keys@.len(),
        ensures
            daily_row(entries@, r),
            r.date@ == g.keys@[j as int]@,
    {
        let ghost s = entries@;
        let tal = g.tallies[j];
        let ghost k = g.keys@[j as int]@;
        proof {
            lemma_token_pair_fits(s, KeyKind::Day, k);
            let f = g.firsts@[j as int] as int;
            assert(first_with_key(s, KeyKind::Day, k, f));
        }
        DailyUsage {
            date: g.keys[j].clone(),
            total_cost: tal.cost,
            total_tokens: tal.input + tal.output + tal.cache_read + tal.cache_creation,
            input_tokens: tal.input,
            output_tokens: tal.output,
            cache_read_tokens: tal.cache_read,
            cache_creation_tokens: tal.cache_creation,
            request_count: tal.requests,
            models_used: Self::models_of_day(entries, &g.entry_keys, &g.keys[j]),
        }
    }

    /// One row per UTC date, earliest first.
    pub fn calculate_daily_usage(&self, entries: &Vec<UsageEntry>) -> (r: Vec<DailyUsage>)
        requires
            forall|i: int| 0 <= i < entries@.len() ==> (#[trigger] entries@[i]).wf(),
            totals_fit(entries@),
        ensures
            daily_usage_of(entries@, r@),
    {
        let ghost s = entries@;
        let g = group_entries(entries, KeyKind::Day);
        let m = g.keys.len();
        let mut sort_keys: Vec<i128> = Vec::new();
        let mut j: usize = 0;
        while j < m
            invariant
                s == entries@,
                forall|i: int| 0 <= i < s.len() ==> (#[trigger] s[i]).wf(),
                groups_of(g, s, KeyKind::Day),
                m == g.keys@.len(),
                j <= m,
                sort_keys@.len() == j,
                forall|k: int| 0 <= k < j ==> #[trigger] sort_keys@[k] == g.latest@[k].date_number(),
                forall|k: int| 0 <= k < j ==> (#[trigger] g.latest@[k]).wf(),
                forall|k: int| 0 <= k < j ==> #[trigger] g.latest@[k].date_text() == g.keys@[k]@,
            decreases m - j,
        {
            proof {
                let k = g.keys@[j as int]@;
                lemma_latest_member(s, KeyKind::Day, k);
                let i = choose|i: int| 0 <= i < s.len() && key_of(s[i], KeyKind::Day) == k && s[i].timestamp == latest_in_group(s, KeyKind::Day, k)->0;
                assert(s[i].wf());
                assert(g.latest@[j as int] == s[i].timestamp);
            }
            sort_keys.push(g.latest[j].date_key_number());
            j = j + 1;
        }
        let order = ascending_order(&sort_keys);
        let mut rows: Vec<DailyUsage> = Vec::new();
        let mut t: usize = 0;
        while t < m
            invariant
                s == entries@,
                totals_fit(s),
                forall|i: int| 0 <= i < s.len() ==> (#[trigger] s[i]).wf(),
                groups_of(g, s, KeyKind::Day),
                m == g.keys@.len(),
                sort_keys@.len() == m,
                is_permutation(order@, m as nat),
                t <= m,
                rows@.len() == t,
                forall|k: int| 0 <= k < t ==> #[trigger] rows@[k].date@ == g.keys@[order@[k] as int]@,
                forall|k: int| 0 <= k < t ==> daily_row(s, #[trigger] rows@[k]),
            decreases m - t,
        {
            let j = order[t];
            let row = Self::daily_row_for(entries, &g, j);
            rows.push(row);
            t = t + 1;
        }
        proof {
            lemma_sorted_groups(s, KeyKind::Day, g, order@, daily_keys(rows@));
            assert forall|a: int, b: int| 0 <= a < b < rows@.len() implies #[trigger] days_in_order(s, rows@[a].date@, rows@[b].date@) by {
                let ja = order@[a] as int;
                let jb = order@[b] as int;
                let ta = g.latest@[ja];
                let tb = g.latest@[jb];
                assert(sort_keys@[ja] <= sort_keys@[jb]);
                assert(g.keys@[ja]@ != g.keys@[jb]@) by {
                    if ja < jb {
                        assert(g.keys@[ja]@ != g.keys@[jb]@);
                    } else {
                        assert(g.keys@[jb]@ != g.keys@[ja]@);
                    }
                }
                if ta.date_number() == tb.date_number() {
                    lemma_date_number_text(ta, tb);
                }
                assert forall|i: int, j: int|
                    0 <= i < s.len() && 0 <= j < s.len() && #[trigger] key_of(s[i], KeyKind::Day) == rows@[a].date@
                        && #[trigger] key_of(s[j], KeyKind::Day) == rows@[b].date@ implies s[i].timestamp.date_number()
                    < s[j].timestamp.date_number() by {
                    assert(s[i].wf() && s[j].wf());
                    crate::models::lemma_date_text_injective(s[i].timestamp, ta);
                    crate::models::lemma_date_text_injective(s[j].timestamp, tb);
                }
            }
        }
        rows
    }
}

/// A total over a prefix is at most the total over the whole.
proof fn lemma_prefix_monotone(s: Seq<UsageEntry>, i: int)
    requires
        0 <= i <= s.len(),
    ensures
        total_sum(s.take(i), Measure::Cost) <= total_sum(s, Measure::Cost),
        total_tokens(s.take(i)) <= total_tokens(s),
{
    crate::grouping::lemma_total_prefix(s, Measure::Cost, i);
    crate::grouping::lemma_total_prefix(s, Measure::Input, i);
    crate::grouping::lemma_total_prefix(s, Measure::Output, i);
    crate::grouping::lemma_total_prefix(s, Measure::CacheRead, i);
    crate::grouping::lemma_total_prefix(s, Measure::CacheCreation, i);
}

proof fn lemma_project_sessions_finite(s: Seq<UsageEntry>, k: Seq<char>)
    ensures
        project_sessions(s, k).finite(),
    decreases s.len(),
{
    if s.len() > 0 {
        lemma_project_sessions_finite(s.drop_last(), k);
    }
}

} // verus!
