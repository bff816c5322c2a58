//! Grouping records by a key and totalling each group in one pass.

use vstd::prelude::*;
use vstd::hash_map::StringHashMap;
use crate::models::{Timestamp, UsageEntry};

verus! {

/// What records are grouped by.
#[derive(Clone, Copy, Debug, PartialEq, Eq)]
pub enum KeyKind {
    /// The model id.
    Model,
    /// The project path, `Unknown Project` when missing.
    Project,
    /// `project:session`, each part `unknown` when missing.
    Session,
    /// The UTC date, `YYYY-MM-DD`.
    Day,
}

/// What a group adds up.
#[derive(Clone, Copy, Debug, PartialEq, Eq)]
pub enum Measure {
    Cost,
    Input,
    Output,
    CacheRead,
    CacheCreation,
    Requests,
}

/// The project path of a record, `Unknown Project` when missing.
pub open spec fn project_key(e: UsageEntry) -> Seq<char> {
    match e.project_path {
        Some(p) => p@,
        None => "Unknown Project"@,
    }
}

/// An optional text, `unknown` when missing.
pub open spec fn or_unknown(o: Option<String>) -> Seq<char> {
    match o {
        Some(p) => p@,
        None => "unknown"@,
    }
}

/// The key of a record under `kind`.
pub open spec fn key_of(e: UsageEntry, kind: KeyKind) -> Seq<char> {
    match kind {
        KeyKind::Model => e.model@,
        KeyKind::Project => project_key(e),
        KeyKind::Session => or_unknown(e.project_path) + ":"@ + or_unknown(e.session_id),
        KeyKind::Day => e.timestamp.date_text(),
    }
}

/// The amount a record adds to `m`.
pub open spec fn measure(e: UsageEntry, m: Measure) -> int {
    match m {
        Measure::Cost => e.cost as int,
        Measure::Input => e.input_tokens as int,
        Measure::Output => e.output_tokens as int,
        Measure::CacheRead => e.cache_read_tokens as int,
        Measure::CacheCreation => e.cache_creation_tokens as int,
        Measure::Requests => 1,
    }
}

/// The sum of `m` over the records of `s` whose key under `kind` is `k`.
pub open spec fn group_sum(s: Seq<UsageEntry>, kind: KeyKind, k: Seq<char>, m: Measure) -> int
    decreases s.len(),
{
    if s.len() == 0 {
        0
    } else {
        group_sum(s.drop_last(), kind, k, m) + if key_of(s.last(), kind) == k {
            measure(s.last(), m)
        } else {
            0
        }
    }
}

/// The sum of `m` over all of `s`.
pub open spec fn total_sum(s: Seq<UsageEntry>, m: Measure) -> int
    decreases s.len(),
{
    if s.len() == 0 {
        0
    } else {
        total_sum(s.drop_last(), m) + measure(s.last(), m)
    }
}

/// All four token categories over all of `s`.
pub open spec fn total_tokens(s: Seq<UsageEntry>) -> int {
    total_sum(s, Measure::Input) + total_sum(s, Measure::Output) + total_sum(s, Measure::CacheRead)
        + total_sum(s, Measure::CacheCreation)
}

/// Every total of `s` fits in a `u64`.
pub open spec fn totals_fit(s: Seq<UsageEntry>) -> bool {
    &&& total_sum(s, Measure::Cost) <= u64::MAX
    &&& total_tokens(s) <= u64::MAX
}

/// The timestamp of the latest record with key `k`; among equally late
/// ones, the first.
pub open spec fn latest_in_group(s: Seq<UsageEntry>, kind: KeyKind, k: Seq<char>) -> Option<Timestamp>
    decreases s.len(),
{
    if s.len() == 0 {
        None
    } else {
        let prev = latest_in_group(s.drop_last(), kind, k);
        if key_of(s.last(), kind) == k && (prev is None || s.last().timestamp.instant() > prev->0.instant()) {
            Some(s.last().timestamp)
        } else {
            prev
        }
    }
}

/// `t` holds the sums of the group of `k`.
pub open spec fn tally_matches(t: Tally, s: Seq<UsageEntry>, kind: KeyKind, k: Seq<char>) -> bool {
    &&& t.cost == group_sum(s, kind, k, Measure::Cost)
    &&& t.input == group_sum(s, kind, k, Measure::Input)
    &&& t.output == group_sum(s, kind, k, Measure::Output)
    &&& t.cache_read == group_sum(s, kind, k, Measure::CacheRead)
    &&& t.cache_creation == group_sum(s, kind, k, Measure::CacheCreation)
    &&& t.requests == group_sum(s, kind, k, Measure::Requests)
}

/// `f` is the first position of `s` whose key is `k`.
pub open spec fn first_with_key(s: Seq<UsageEntry>, kind: KeyKind, k: Seq<char>, f: int) -> bool {
    &&& 0 <= f < s.len()
    &&& key_of(s[f], kind) == k
    &&& forall|i: int| 0 <= i < f ==> key_of(#[trigger] s[i], kind) != k
}

/// The sums of one group.
#[derive(Clone, Copy, Debug, PartialEq, Eq)]
pub struct Tally {
    pub cost: u64,
    pub input: u64,
    pub output: u64,
    pub cache_read: u64,
    pub cache_creation: u64,
    pub requests: usize,
}

/// The groups of a record list, in order of first appearance.
pub struct Groups {
    /// The key of each record.
    pub entry_keys: Vec<String>,
    /// The distinct keys.
    pub keys: Vec<String>,
    /// Where each key first appears.
    pub firsts: Vec<usize>,
    pub tallies: Vec<Tally>,
    pub latest: Vec<Timestamp>,
}

/// `g` groups `s` by `kind`.
pub open spec fn groups_of(g: Groups, s: Seq<UsageEntry>, kind: KeyKind) -> bool {
    &&& g.entry_keys@.len() == s.len()
    &&& forall|i: int| 0 <= i < s.len() ==> (#[trigger] g.entry_keys@[i])@ == key_of(s[i], kind)
    &&& g.firsts@.len() == g.keys@.len()
    &&& g.tallies@.len() == g.keys@.len()
    &&& g.latest@.len() == g.keys@.len()
    &&& forall|j: int| 0 <= j < g.keys@.len() ==> first_with_key(s, kind, (#[trigger] g.keys@[j])@, g.firsts@[j] as int)
    &&& forall|j: int| 0 <= j < g.keys@.len() ==> tally_matches(g.tallies@[j], s, kind, (#[trigger] g.keys@[j])@)
    &&& forall|j: int| 0 <= j < g.keys@.len() ==> latest_in_group(s, kind, (#[trigger] g.keys@[j])@) == Some(g.latest@[j])
    &&& forall|a: int, b: int| 0 <= a < b < g.keys@.len() ==> g.keys@[a]@ != g.keys@[b]@
    &&& forall|i: int| 0 <= i < s.len() ==> exists|j: int| 0 <= j < g.keys@.len() && (#[trigger] g.keys@[j])@ == key_of(#[trigger] s[i], kind)
}

pub proof fn lemma_group_sum_step(s: Seq<UsageEntry>, kind: KeyKind, k: Seq<char>, m: Measure, i: int)
    requires
        0 <= i < s.len(),
    ensures
        group_sum(s.take(i + 1), kind, k, m) == group_sum(s.take(i), kind, k, m) + if key_of(s[i], kind) == k {
            measure(s[i], m)
        } else {
            0
        },
        total_sum(s.take(i + 1), m) == total_sum(s.take(i), m) + measure(s[i], m),
{
    assert(s.take(i + 1).drop_last() =~= s.take(i));
}

pub proof fn lemma_latest_step(s: Seq<UsageEntry>, kind: KeyKind, k: Seq<char>, i: int)
    requires
        0 <= i < s.len(),
    ensures
        latest_in_group(s.take(i + 1), kind, k) == ({
            let prev = latest_in_group(s.take(i), kind, k);
            if key_of(s[i], kind) == k && (prev is None || s[i].timestamp.instant() > prev->0.instant()) {
                Some(s[i].timestamp)
            } else {
                prev
            }
        }),
{
    assert(s.take(i + 1).drop_last() =~= s.take(i));
}

/// A group's sum is at most the sum over all records.
pub proof fn lemma_group_sum_le_total(s: Seq<UsageEntry>, kind: KeyKind, k: Seq<char>, m: Measure)
    ensures
        0 <= group_sum(s, kind, k, m) <= total_sum(s, m),
    decreases s.len(),
{
    if s.len() > 0 {
        lemma_group_sum_le_total(s.drop_last(), kind, k, m);
    }
}

/// A prefix sums to at most the whole.
pub proof fn lemma_total_prefix(s: Seq<UsageEntry>, m: Measure, i: int)
    requires
        0 <= i <= s.len(),
    ensures
        0 <= total_sum(s.take(i), m) <= total_sum(s, m),
    decreases s.len() - i,
{
    if i < s.len() {
        lemma_total_prefix(s, m, i + 1);
        lemma_group_sum_step(s, KeyKind::Model, Seq::empty(), m, i);
    } else {
        assert(s.take(i) =~= s);
    }
    lemma_total_nonneg(s.take(i), m);
}

pub proof fn lemma_total_nonneg(s: Seq<UsageEntry>, m: Measure)
    ensures
        0 <= total_sum(s, m),
    decreases s.len(),
{
    if s.len() > 0 {
        lemma_total_nonneg(s.drop_last(), m);
    }
}

/// The record count equals the list length.
pub proof fn lemma_requests_total(s: Seq<UsageEntry>)
    ensures
        total_sum(s, Measure::Requests) == s.len(),
    decreases s.len(),
{
    if s.len() > 0 {
        lemma_requests_total(s.drop_last());
    }
}

/// A key missing from a prefix has nothing there.
pub proof fn lemma_absent_key(s: Seq<UsageEntry>, kind: KeyKind, k: Seq<char>, m: Measure)
    requires
        forall|i: int| 0 <= i < s.len() ==> key_of(#[trigger] s[i], kind) != k,
    ensures
        group_sum(s, kind, k, m) == 0,
        latest_in_group(s, kind, k) is None,
    decreases s.len(),
{
    if s.len() > 0 {
        assert(key_of(s[s.len() - 1], kind) != k);
        lemma_absent_key(s.drop_last(), kind, k, m);
    }
}

/// A tally stays right for a key that the next record does not have.
proof fn lemma_tally_other(t: Tally, s: Seq<UsageEntry>, kind: KeyKind, k: Seq<char>, i: int)
    requires
        0 <= i < s.len(),
        tally_matches(t, s.take(i), kind, k),
        key_of(s[i], kind) != k,
    ensures
        tally_matches(t, s.take(i + 1), kind, k),
        latest_in_group(s.take(i + 1), kind, k) == latest_in_group(s.take(i), kind, k),
{
    lemma_group_sum_step(s, kind, k, Measure::Cost, i);
    lemma_group_sum_step(s, kind, k, Measure::Input, i);
    lemma_group_sum_step(s, kind, k, Measure::Output, i);
    lemma_group_sum_step(s, kind, k, Measure::CacheRead, i);
    lemma_group_sum_step(s, kind, k, Measure::CacheCreation, i);
    lemma_group_sum_step(s, kind, k, Measure::Requests, i);
    lemma_latest_step(s, kind, k, i);
}

/// The sums of the group of `k` after record `i`, and their bounds.
proof fn lemma_tally_same(s: Seq<UsageEntry>, kind: KeyKind, k: Seq<char>, i: int)
    requires
        0 <= i < s.len(),
        key_of(s[i], kind) == k,
        totals_fit(s),
    ensures
        forall|m: Measure| #[trigger] group_sum(s.take(i + 1), kind, k, m) == group_sum(s.take(i), kind, k, m) + measure(s[i], m),
        group_sum(s.take(i + 1), kind, k, Measure::Cost) <= u64::MAX,
        group_sum(s.take(i + 1), kind, k, Measure::Input) <= u64::MAX,
        group_sum(s.take(i + 1), kind, k, Measure::Output) <= u64::MAX,
        group_sum(s.take(i + 1), kind, k, Measure::CacheRead) <= u64::MAX,
        group_sum(s.take(i + 1), kind, k, Measure::CacheCreation) <= u64::MAX,
        group_sum(s.take(i + 1), kind, k, Measure::Requests) <= i + 1,
        latest_in_group(s.take(i + 1), kind, k) == ({
            let prev = latest_in_group(s.take(i), kind, k);
            if prev is None || s[i].timestamp.instant() > prev->0.instant() {
                Some(s[i].timestamp)
            } else {
                prev
            }
        }),
{
    assert forall|m: Measure| #[trigger] group_sum(s.take(i + 1), kind, k, m) == group_sum(s.take(i), kind, k, m) + measure(s[i], m) by {
        lemma_group_sum_step(s, kind, k, m, i);
    }
    lemma_latest_step(s, kind, k, i);
    let p = s.take(i + 1);
    lemma_group_sum_le_total(p, kind, k, Measure::Cost);
    lemma_group_sum_le_total(p, kind, k, Measure::Input);
    lemma_group_sum_le_total(p, kind, k, Measure::Output);
    lemma_group_sum_le_total(p, kind, k, Measure::CacheRead);
    lemma_group_sum_le_total(p, kind, k, Measure::CacheCreation);
    lemma_group_sum_le_total(p, kind, k, Measure::Requests);
    lemma_total_prefix(s, Measure::Cost, i + 1);
    lemma_total_prefix(s, Measure::Input, i + 1);
    lemma_total_prefix(s, Measure::Output, i + 1);
    lemma_total_prefix(s, Measure::CacheRead, i + 1);
    lemma_total_prefix(s, Measure::CacheCreation, i + 1);
    lemma_total_nonneg(s, Measure::Input);
    lemma_total_nonneg(s, Measure::Output);
    lemma_total_nonneg(s, Measure::CacheRead);
    lemma_total_nonneg(s, Measure::CacheCreation);
    lemma_requests_total(p);
}

/// The key of a record under `kind`.
pub fn key_exec(e: &UsageEntry, kind: KeyKind) -> (r: String)
    requires
        e.timestamp.wf(),
    ensures
        r@ == key_of(*e, kind),
{
    match kind {
        KeyKind::Model => e.model.clone(),
        KeyKind::Project => match &e.project_path {
            Some(p) => p.clone(),
            None => String::from_str("Unknown Project"),
        },
        KeyKind::Session => {
            let mut r = match &e.project_path {
                Some(p) => p.clone(),
                None => String::from_str("unknown"),
            };
            r.append(":");
            match &e.session_id {
                Some(q) => r.append(q.as_str()),
                None => r.append("unknown"),
            }
            r
        },
        KeyKind::Day => e.timestamp.date_key(),
    }
}

/// Groups `entries` by `kind` in one pass, totalling each group.
pub fn group_entries(entries: &Vec<UsageEntry>, kind: KeyKind) -> (g: Groups)
    requires
        forall|i: int| 0 <= i < entries@.len() ==> (#[trigger] entries@[i]).wf(),
        totals_fit(entries@),
    ensures
        groups_of(g, entries@, kind),
{
    let ghost s = entries@;
    let n = entries.len();
    let mut index: StringHashMap<usize> = StringHashMap::new();
    let mut entry_keys: Vec<String> = Vec::new();
    let mut keys: Vec<String> = Vec::new();
    let mut firsts: Vec<usize> = Vec::new();
    let mut tallies: Vec<Tally> = Vec::new();
    let mut latest: Vec<Timestamp> = Vec::new();
    let mut i: usize = 0;
    while i < n
        invariant
            s == entries@,
            n == s.len(),
            i <= n,
            forall|i: int| 0 <= i < s.len() ==> (#[trigger] s[i]).wf(),
            totals_fit(s),
            entry_keys@.len() == i,
            forall|a: int| 0 <= a < i ==> (#[trigger] entry_keys@[a])@ == key_of(s[a], kind),
            firsts@.len() == keys@.len(),
            tallies@.len() == keys@.len(),
            latest@.len() == keys@.len(),
            forall|k: Seq<char>| #[trigger] index@.contains_key(k) ==> index@[k] < keys@.len() && keys@[index@[k] as int]@ == k,
            forall|j: int| 0 <= j < keys@.len() ==> index@.contains_key((#[trigger] keys@[j])@) && index@[keys@[j]@] == j,
            forall|k: Seq<char>| !(#[trigger] index@.contains_key(k)) ==> forall|a: int| 0 <= a < i ==> key_of(#[trigger] s[a], kind) != k,
            forall|j: int| 0 <= j < keys@.len() ==> (#[trigger] firsts@[j]) < i,
            forall|j: int| 0 <= j < keys@.len() ==> first_with_key(s, kind, (#[trigger] keys@[j])@, firsts@[j] as int),
            forall|j: int| 0 <= j < keys@.len() ==> tally_matches(tallies@[j], s.take(i as int), kind, (#[trigger] keys@[j])@),
            forall|j: int| 0 <= j < keys@.len() ==> latest_in_group(s.take(i as int), kind, (#[trigger] keys@[j])@) == Some(latest@[j]),
            forall|a: int, b: int| 0 <= a < b < keys@.len() ==> keys@[a]@ != keys@[b]@,
            forall|a: int| 0 <= a < i ==> exists|j: int| 0 <= j < keys@.len() && (#[trigger] keys@[j])@ == key_of(#[trigger] s[a], kind),
        decreases n - i,
    {
        let e = &entries[i];
        let k = key_exec(e, kind);
        let ghost kk = k@;
        proof {
            assert forall|j: int| 0 <= j < keys@.len() && keys@[j]@ != kk implies tally_matches(tallies@[j], s.take(i + 1), kind, (#[trigger] keys@[j])@)
                && latest_in_group(s.take(i + 1), kind, keys@[j]@) == latest_in_group(s.take(i as int), kind, keys@[j]@) by {
                lemma_tally_other(tallies@[j], s, kind, keys@[j]@, i as int);
            }
            lemma_tally_same(s, kind, kk, i as int);
        }
        match index.get(k.as_str()) {
            Some(jr) => {
                let j: usize = *jr;
                        let t = tallies[j];
                proof {
                    assert(keys@[j as int]@ == kk);
                    assert(group_sum(s.take(i + 1), kind, kk, Measure::Cost) == group_sum(s.take(i as int), kind, kk, Measure::Cost) + measure(s[i as int], Measure::Cost));
                    assert(group_sum(s.take(i + 1), kind, kk, Measure::Input) == group_sum(s.take(i as int), kind, kk, Measure::Input) + measure(s[i as int], Measure::Input));
                    assert(group_sum(s.take(i + 1), kind, kk, Measure::Output) == group_sum(s.take(i as int), kind, kk, Measure::Output) + measure(s[i as int], Measure::Output));
                    assert(group_sum(s.take(i + 1), kind, kk, Measure::CacheRead) == group_sum(s.take(i as int), kind, kk, Measure::CacheRead) + measure(s[i as int], Measure::CacheRead));
                    assert(group_sum(s.take(i + 1), kind, kk, Measure::CacheCreation) == group_sum(s.take(i as int), kind, kk, Measure::CacheCreation) + measure(s[i as int], Measure::CacheCreation));
                    assert(group_sum(s.take(i + 1), kind, kk, Measure::Requests) == group_sum(s.take(i as int), kind, kk, Measure::Requests) + measure(s[i as int], Measure::Requests));
                }
                tallies.set(j, Tally {
                    cost: t.cost + e.cost,
                    input: t.input + e.input_tokens as u64,
                    output: t.output + e.output_tokens as u64,
                    cache_read: t.cache_read + e.cache_read_tokens as u64,
                    cache_creation: t.cache_creation + e.cache_creation_tokens as u64,
                    requests: t.requests + 1,
                });
                if e.timestamp.instant_key() > latest[j].instant_key() {
                    latest.set(j, e.timestamp);
                }
                        proof {
                    assert forall|a: int| 0 <= a <= i implies exists|j2: int| 0 <= j2 < keys@.len() && (#[trigger] keys@[j2])@ == key_of(#[trigger] s[a], kind) by {
                        if a == i {
                            assert(keys@[j as int]@ == key_of(s[a], kind));
                        }
                    }
                }
            },
            None => {
                proof {
                    lemma_absent_key(s.take(i as int), kind, kk, Measure::Cost);
                    lemma_absent_key(s.take(i as int), kind, kk, Measure::Input);
                    lemma_absent_key(s.take(i as int), kind, kk, Measure::Output);
                    lemma_absent_key(s.take(i as int), kind, kk, Measure::CacheRead);
                    lemma_absent_key(s.take(i as int), kind, kk, Measure::CacheCreation);
                    lemma_absent_key(s.take(i as int), kind, kk, Measure::Requests);
                    assert(group_sum(s.take(i + 1), kind, kk, Measure::Cost) == measure(s[i as int], Measure::Cost));
                    assert(group_sum(s.take(i + 1), kind, kk, Measure::Input) == measure(s[i as int], Measure::Input));
                    assert(group_sum(s.take(i + 1), kind, kk, Measure::Output) == measure(s[i as int], Measure::Output));
                    assert(group_sum(s.take(i + 1), kind, kk, Measure::CacheRead) == measure(s[i as int], Measure::CacheRead));
                    assert(group_sum(s.take(i + 1), kind, kk, Measure::CacheCreation) == measure(s[i as int], Measure::CacheCreation));
                    assert(group_sum(s.take(i + 1), kind, kk, Measure::Requests) == measure(s[i as int], Measure::Requests));
                }
                assert(!index@.contains_key(kk));
                assert(forall|a: int| 0 <= a < i ==> key_of(#[trigger] s[a], kind) != kk);
                let ghost old_keys = keys@;
                let j = keys.len();
                index.insert(k.clone(), j);
                keys.push(k.clone());
                firsts.push(i);
                tallies.push(Tally {
                    cost: e.cost,
                    input: e.input_tokens as u64,
                    output: e.output_tokens as u64,
                    cache_read: e.cache_read_tokens as u64,
                    cache_creation: e.cache_creation_tokens as u64,
                    requests: 1,
                });
                latest.push(e.timestamp);
                proof {
                    assert(keys@[j as int]@ == kk);
                    assert forall|a: int| 0 <= a <= i implies exists|j2: int| 0 <= j2 < keys@.len() && (#[trigger] keys@[j2])@ == key_of(#[trigger] s[a], kind) by {
                        if a == i {
                            assert(keys@[j as int]@ == key_of(s[a], kind));
                        } else {
                            let j2 = choose|j2: int| 0 <= j2 < old_keys.len() && (#[trigger] old_keys[j2])@ == key_of(s[a], kind);
                            assert(keys@[j2] == old_keys[j2]);
                        }
                    }
                    assert(first_with_key(s, kind, kk, i as int));
                    assert forall|j2: int| 0 <= j2 < keys@.len() implies first_with_key(s, kind, (#[trigger] keys@[j2])@, firsts@[j2] as int) by {
                        if j2 < j {
                            assert(keys@[j2] == old_keys[j2]);
                        }
                    }
                }
            },
        }
        entry_keys.push(k);
        i = i + 1;
    }
    assert(s.take(n as int) =~= s);
    Groups { entry_keys, keys, firsts, tallies, latest }
}

} // verus!
