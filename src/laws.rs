//! Properties that relate several functions of the pipeline.

use vstd::prelude::*;
use crate::aggregator::{
    daily_keys, in_range, key_occurs, lists_keys, model_keys, model_row, project_keys, session_ids,
    session_keys, since, usage_stats_of,
};
use crate::grouping::{KeyKind, Measure, group_sum, key_of, measure, total_sum};
use crate::json::LineFields;
use crate::models::{ModelStats, TimeRange, Timestamp, UsageEntry, UsageStats};
use crate::processor::{
    ReadLine, dedup_key_of, identity_key, read_lines_of, has_tokens, kept_positions, line_error, line_outcome, scan_sets,
};
use crate::text::{decimal, is_digit};

verus! {

/// The sum of `m` over the groups of the keys `ks`.
pub open spec fn key_total(s: Seq<UsageEntry>, kind: KeyKind, ks: Seq<Seq<char>>, m: Measure) -> int
    decreases ks.len(),
{
    if ks.len() == 0 {
        0
    } else {
        key_total(s, kind, ks.drop_last(), m) + group_sum(s, kind, ks.last(), m)
    }
}

/// `c` for each position of `ks` that holds `k`.
pub open spec fn hits(ks: Seq<Seq<char>>, k: Seq<char>, c: int) -> int
    decreases ks.len(),
{
    if ks.len() == 0 {
        0
    } else {
        hits(ks.drop_last(), k, c) + if ks.last() == k {
            c
        } else {
            0
        }
    }
}

proof fn lemma_hits(ks: Seq<Seq<char>>, k: Seq<char>, c: int)
    requires
        ks.no_duplicates(),
    ensures
        hits(ks, k, c) == if ks.contains(k) {
            c
        } else {
            0
        },
    decreases ks.len(),
{
    if ks.len() > 0 {
        let p = ks.drop_last();
        assert(p.no_duplicates());
        lemma_hits(p, k, c);
        if ks.last() == k {
            assert(!p.contains(k)) by {
                if p.contains(k) {
                    let i = choose|i: int| 0 <= i < p.len() && p[i] == k;
                    assert(ks[i] == ks[ks.len() - 1]);
                }
            }
        }
        assert(ks.contains(k) == (p.contains(k) || ks.last() == k)) by {
            if ks.contains(k) {
                let i = choose|i: int| 0 <= i < ks.len() && ks[i] == k;
                if i < ks.len() - 1 {
                    assert(p[i] == k);
                }
            }
            if p.contains(k) {
                let i = choose|i: int| 0 <= i < p.len() && p[i] == k;
                assert(ks[i] == k);
            }
        }
    }
}

proof fn lemma_key_total_step(s: Seq<UsageEntry>, kind: KeyKind, ks: Seq<Seq<char>>, m: Measure)
    requires
        s.len() > 0,
    ensures
        key_total(s, kind, ks, m) == key_total(s.drop_last(), kind, ks, m) + hits(ks, key_of(s.last(), kind), measure(s.last(), m)),
    decreases ks.len(),
{
    if ks.len() > 0 {
        lemma_key_total_step(s, kind, ks.drop_last(), m);
    }
}

/// Summing over every key once gives the total.
proof fn lemma_key_total(s: Seq<UsageEntry>, kind: KeyKind, ks: Seq<Seq<char>>, m: Measure)
    requires
        ks.no_duplicates(),
        forall|i: int| 0 <= i < s.len() ==> ks.contains(#[trigger] key_of(s[i], kind)),
    ensures
        key_total(s, kind, ks, m) == total_sum(s, m),
    decreases s.len(),
{
    if s.len() == 0 {
        lemma_key_total_empty(s, kind, ks, m);
    } else {
        let p = s.drop_last();
        assert forall|i: int| 0 <= i < p.len() implies ks.contains(#[trigger] key_of(p[i], kind)) by {
            assert(p[i] == s[i]);
        }
        lemma_key_total(p, kind, ks, m);
        lemma_key_total_step(s, kind, ks, m);
        assert(ks.contains(key_of(s[s.len() - 1], kind)));
        lemma_hits(ks, key_of(s.last(), kind), measure(s.last(), m));
    }
}

proof fn lemma_key_total_empty(s: Seq<UsageEntry>, kind: KeyKind, ks: Seq<Seq<char>>, m: Measure)
    requires
        s.len() == 0,
    ensures
        key_total(s, kind, ks, m) == 0,
    decreases ks.len(),
{
    if ks.len() > 0 {
        lemma_key_total_empty(s, kind, ks.drop_last(), m);
    }
}

/// The total cost of a list of model rows.
pub open spec fn model_cost_sum(rows: Seq<ModelStats>) -> int
    decreases rows.len(),
{
    if rows.len() == 0 {
        0
    } else {
        model_cost_sum(rows.drop_last()) + rows.last().total_cost
    }
}

proof fn lemma_model_cost_sum(s: Seq<UsageEntry>, rows: Seq<ModelStats>)
    requires
        forall|j: int| 0 <= j < rows.len() ==> model_row(s, #[trigger] rows[j]),
    ensures
        model_cost_sum(rows) == key_total(s, KeyKind::Model, model_keys(rows), Measure::Cost),
    decreases rows.len(),
{
    if rows.len() > 0 {
        let p = rows.drop_last();
        assert(model_keys(p) =~= model_keys(rows).drop_last());
        assert forall|j: int| 0 <= j < p.len() implies model_row(s, #[trigger] p[j]) by {
            assert(p[j] == rows[j]);
        }
        lemma_model_cost_sum(s, p);
        assert(model_row(s, rows[rows.len() - 1]));
    }
}

/// The model rows' costs add up to the global total cost.
pub proof fn lemma_model_costs_sum_to_total(s: Seq<UsageEntry>, r: UsageStats)
    requires
        usage_stats_of(s, r),
    ensures
        model_cost_sum(r.model_stats@) == r.total_cost,
{
    let rows = r.model_stats@;
    let ks = model_keys(rows);
    lemma_model_cost_sum(s, rows);
    assert(ks.no_duplicates()) by {
        assert forall|a: int, b: int| 0 <= a < ks.len() && 0 <= b < ks.len() && a != b implies ks[a] != ks[b] by {
            if a < b {
                assert(ks[a] != ks[b]);
            } else {
                assert(ks[b] != ks[a]);
            }
        }
    }
    lemma_key_total(s, KeyKind::Model, ks, Measure::Cost);
}

/// A list of keys of `s` is empty exactly when `s` is.
proof fn lemma_keys_empty(s: Seq<UsageEntry>, kind: KeyKind, ks: Seq<Seq<char>>)
    requires
        lists_keys(s, kind, ks),
    ensures
        (ks.len() == 0) == (s.len() == 0),
{
    if s.len() > 0 {
        assert(ks.contains(key_of(s[0], kind)));
    }
    if ks.len() > 0 {
        assert(key_occurs(s, kind, ks[0]));
    }
}

/// On a non-empty record list none of the four views is empty; on an empty
/// one every total is zero and every view is empty.
pub proof fn lemma_views_empty_iff_no_records(s: Seq<UsageEntry>, r: UsageStats)
    requires
        usage_stats_of(s, r),
    ensures
        s.len() > 0 ==> r.model_stats@.len() > 0 && r.project_stats@.len() > 0 && r.session_stats@.len() > 0
            && r.daily_usage@.len() > 0,
        s.len() == 0 ==> r.total_cost == 0 && r.total_tokens == 0 && r.session_count == 0
            && r.model_stats@.len() == 0 && r.project_stats@.len() == 0 && r.session_stats@.len() == 0
            && r.daily_usage@.len() == 0,
{
    lemma_keys_empty(s, KeyKind::Model, model_keys(r.model_stats@));
    lemma_keys_empty(s, KeyKind::Project, project_keys(r.project_stats@));
    lemma_keys_empty(s, KeyKind::Session, session_keys(r.session_stats@));
    lemma_keys_empty(s, KeyKind::Day, daily_keys(r.daily_usage@));
    if s.len() == 0 {
        assert(session_ids(s) == Set::<Seq<char>>::empty());
    }
}

/// A line whose four token counts are zero gives no record.
pub proof fn lemma_zero_usage_gives_no_record(
    f: LineFields,
    when: Option<Timestamp>,
    session: Option<String>,
    local: Set<Seq<char>>,
    global: Set<Seq<char>>,
    r: Result<Option<UsageEntry>, crate::processor::LineError>,
    local2: Set<Seq<char>>,
    global2: Set<Seq<char>>,
)
    requires
        line_outcome(f, when, session, local, global, r, local2, global2),
        !has_tokens(f),
    ensures
        !(r matches Ok(Some(_))),
{
}

/// The identity that a read line presents to the identity check, if it gets
/// that far (fields, no error, usage with a token) and has one.
pub open spec fn checked_key(l: ReadLine) -> Option<Seq<char>> {
    match l.fields {
        Some(f) => if line_error(f, l.when) is None && f.has_usage && has_tokens(f) {
            dedup_key_of(f)
        } else {
            None
        },
        None => None,
    }
}

/// A read line has fields and an identity.
pub open spec fn has_identity(l: ReadLine) -> bool {
    match l.fields {
        Some(f) => dedup_key_of(f) is Some,
        None => false,
    }
}

proof fn lemma_scan_collects(lines: Seq<ReadLine>, local: Set<Seq<char>>, global: Set<Seq<char>>)
    requires
        local.subset_of(global),
    ensures
        scan_sets(lines, local, global).0.subset_of(scan_sets(lines, local, global).1),
        global.subset_of(scan_sets(lines, local, global).1),
        forall|i: int| 0 <= i < lines.len() && (#[trigger] checked_key(lines[i])) is Some ==> scan_sets(
            lines,
            local,
            global,
        ).1.contains(checked_key(lines[i])->0),
    decreases lines.len(),
{
    if lines.len() > 0 {
        let pre = lines.drop_last();
        lemma_scan_collects(pre, local, global);
        let (l, g) = scan_sets(pre, local, global);
        assert forall|i: int| 0 <= i < lines.len() && (#[trigger] checked_key(lines[i])) is Some implies scan_sets(
            lines,
            local,
            global,
        ).1.contains(checked_key(lines[i])->0) by {
            if i < pre.len() {
                assert(lines[i] == pre[i]);
            }
        }
    }
}

proof fn lemma_scan_known(lines: Seq<ReadLine>, local: Set<Seq<char>>, global: Set<Seq<char>>)
    requires
        forall|i: int| 0 <= i < lines.len() && (#[trigger] checked_key(lines[i])) is Some ==> global.contains(
            checked_key(lines[i])->0,
        ),
    ensures
        scan_sets(lines, local, global).1 == global,
        forall|k: int| 0 <= k < kept_positions(lines, local, global).len() ==> checked_key(
            lines[#[trigger] kept_positions(lines, local, global)[k]],
        ) is None,
    decreases lines.len(),
{
    if lines.len() > 0 {
        let pre = lines.drop_last();
        assert forall|i: int| 0 <= i < pre.len() && (#[trigger] checked_key(pre[i])) is Some implies global.contains(
            checked_key(pre[i])->0,
        ) by {
            assert(pre[i] == lines[i]);
        }
        lemma_scan_known(pre, local, global);
        crate::processor::lemma_kept_positions(pre, local, global);
        assert forall|k: int| 0 <= k < kept_positions(lines, local, global).len() implies checked_key(
            lines[#[trigger] kept_positions(lines, local, global)[k]],
        ) is None by {
            if k < kept_positions(pre, local, global).len() {
                let p = kept_positions(pre, local, global)[k];
                assert(kept_positions(lines, local, global)[k] == p);
                assert(lines[p] == pre[p]);
            } else {
                assert(checked_key(lines[lines.len() - 1]) is Some ==> global.contains(checked_key(lines[lines.len() - 1])->0));
            }
        }
        assert(checked_key(lines[lines.len() - 1]) is Some ==> global.contains(checked_key(lines[lines.len() - 1])->0));
    }
}

/// Scanning a file a second time in one load (what `process_file` does
/// with the same text and the set its first scan left) keeps only the
/// lines that have no identity, and leaves the load's set as it was: the
/// first scan left every identity in it. So when every line carries an
/// identity, the second scan keeps nothing and the load has as many records
/// as after one scan.
pub proof fn lemma_second_scan_keeps_only_unkeyed(content: Seq<char>, global: Set<Seq<char>>)
    ensures
        ({
            let lines = read_lines_of(content);
            let g1 = scan_sets(lines, Set::empty(), global).1;
            let again = kept_positions(lines, Set::empty(), g1);
            &&& scan_sets(lines, Set::empty(), g1).1 == g1
            &&& forall|k: int| 0 <= k < again.len() ==> checked_key(lines[#[trigger] again[k]]) is None
            &&& (forall|i: int| 0 <= i < lines.len() ==> has_identity(#[trigger] lines[i])) ==> again.len() == 0
        }),
{
    let lines = read_lines_of(content);
    lemma_scan_collects(lines, Set::empty(), global);
    let g1 = scan_sets(lines, Set::empty(), global).1;
    lemma_scan_known(lines, Set::empty(), g1);
    let again = kept_positions(lines, Set::empty(), g1);
    if (forall|i: int| 0 <= i < lines.len() ==> has_identity(#[trigger] lines[i])) && again.len() > 0 {
        crate::processor::lemma_kept_positions(lines, Set::empty(), g1);
        let p = again[0];
        assert(lines[p].fields is Some);
        assert(has_identity(lines[p]));
        assert(checked_key(lines[p]) is None);
    }
}

/// Different `message.id`/`requestId` pairs have different identities.
pub proof fn lemma_identity_key_injective(m1: Seq<char>, q1: Seq<char>, m2: Seq<char>, q2: Seq<char>)
    requires
        identity_key(m1, q1) == identity_key(m2, q2),
    ensures
        m1 == m2,
        q1 == q2,
{
    let a = identity_key(m1, q1);
    let d1 = decimal(m1.len());
    let d2 = decimal(m2.len());
    crate::text::lemma_decimal_digits(m1.len());
    crate::text::lemma_decimal_digits(m2.len());
    if d1.len() < d2.len() {
        assert(a[d1.len() as int] == ':');
        assert(a[d1.len() as int] == d2[d1.len() as int]);
    } else if d2.len() < d1.len() {
        assert(a[d2.len() as int] == ':');
        assert(a[d2.len() as int] == d1[d2.len() as int]);
    } else {
        assert(d1 =~= a.take(d1.len() as int));
        assert(d2 =~= identity_key(m2, q2).take(d2.len() as int));
        crate::text::lemma_decimal_value(m1.len());
        crate::text::lemma_decimal_value(m2.len());
        let l = d1.len() as int + 1;
        assert(m1 =~= a.subrange(l, l + m1.len() as int));
        assert(m2 =~= identity_key(m2, q2).subrange(l, l + m2.len() as int));
        assert(q1 =~= a.skip(l + m1.len() as int));
        assert(q2 =~= identity_key(m2, q2).skip(l + m2.len() as int));
    }
}

/// A line kept by a scan has no identity, or one that the load's set did
/// not hold when the scan began.
proof fn lemma_kept_keys_fresh(lines: Seq<ReadLine>, local: Set<Seq<char>>, global: Set<Seq<char>>)
    ensures
        forall|k: int| 0 <= k < kept_positions(lines, local, global).len() ==> ({
            let c = checked_key(lines[#[trigger] kept_positions(lines, local, global)[k]]);
            c is Some ==> !global.contains(c->0)
        }),
    decreases lines.len(),
{
    if lines.len() > 0 {
        let pre = lines.drop_last();
        lemma_kept_keys_fresh(pre, local, global);
        crate::processor::lemma_kept_positions(pre, local, global);
        crate::processor::lemma_scan_sets_grow(pre, local, global);
        assert forall|k: int| 0 <= k < kept_positions(lines, local, global).len() implies ({
            let c = checked_key(lines[#[trigger] kept_positions(lines, local, global)[k]]);
            c is Some ==> !global.contains(c->0)
        }) by {
            if k < kept_positions(pre, local, global).len() {
                let p = kept_positions(pre, local, global)[k];
                assert(kept_positions(lines, local, global)[k] == p);
                assert(lines[p] == pre[p]);
            }
        }
    }
}

/// Of two files scanned one after the other in a load (texts `ca` then
/// `cb`), the later one keeps no line whose identity a line of the earlier
/// one presented: a request logged in two files is kept once.
pub proof fn lemma_identity_kept_once_across_files(ca: Seq<char>, cb: Seq<char>, global: Set<Seq<char>>)
    ensures
        ({
            let a = read_lines_of(ca);
            let b = read_lines_of(cb);
            let g1 = scan_sets(a, Set::empty(), global).1;
            let kept_b = kept_positions(b, Set::empty(), g1);
            forall|i: int, k: int|
                0 <= i < a.len() && 0 <= k < kept_b.len() && (#[trigger] checked_key(a[i])) is Some
                    ==> checked_key(b[#[trigger] kept_b[k]]) != checked_key(a[i])
        }),
{
    let a = read_lines_of(ca);
    let b = read_lines_of(cb);
    lemma_scan_collects(a, Set::empty(), global);
    let g1 = scan_sets(a, Set::empty(), global).1;
    lemma_kept_keys_fresh(b, Set::empty(), g1);
}

/// The window filter keeps exactly the records at or after the cutoff.
pub proof fn lemma_since_members(s: Seq<UsageEntry>, cutoff: int, e: UsageEntry)
    ensures
        since(s, cutoff).contains(e) <==> s.contains(e) && e.timestamp.instant() >= cutoff,
    decreases s.len(),
{
    if s.len() > 0 {
        let p = s.drop_last();
        lemma_since_members(p, cutoff, e);
        assert(s =~= p.push(s.last()));
        assert(s.contains(e) <==> p.contains(e) || e == s.last()) by {
            if s.contains(e) {
                let i = choose|i: int| 0 <= i < s.len() && s[i] == e;
                if i < s.len() - 1 {
                    assert(p[i] == e);
                }
            }
            if p.contains(e) {
                let i = choose|i: int| 0 <= i < p.len() && p[i] == e;
                assert(s[i] == e);
            }
        }
        let q = since(p, cutoff);
        if s.last().timestamp.instant() >= cutoff {
            assert(q.push(s.last()).contains(e) <==> q.contains(e) || e == s.last()) by {
                let q2 = q.push(s.last());
                if q2.contains(e) {
                    let i = choose|i: int| 0 <= i < q2.len() && q2[i] == e;
                    if i < q.len() {
                        assert(q[i] == e);
                    }
                }
                if q.contains(e) {
                    let i = choose|i: int| 0 <= i < q.len() && q[i] == e;
                    assert(q2[i] == e);
                }
                assert(q2[q.len() as int] == s.last());
            }
        }
    }
}

/// Filtering for the last seven days keeps exactly the records at or after
/// seven days before `now`; all time keeps the list as it is.
pub proof fn lemma_time_range_filter(s: Seq<UsageEntry>, now: Timestamp, e: UsageEntry)
    ensures
        in_range(s, TimeRange::AllTime, now) == s,
        in_range(s, TimeRange::Last7Days, now).contains(e) <==> s.contains(e) && e.timestamp.instant()
            >= now.instant() - 7 * 86400 * 2_000_000_000,
{
    lemma_since_members(s, now.instant() - 7 * 86400 * 2_000_000_000, e);
}

/// When every record's UTC year has four digits (0 to 9999), every
/// date of the per-day view is a `YYYY-MM-DD` text of ten characters, and
/// the rows stand in ascending order of that text.
pub proof fn lemma_daily_dates(s: Seq<UsageEntry>, r: UsageStats)
    requires
        usage_stats_of(s, r),
        forall|i: int| 0 <= i < s.len() ==> (#[trigger] s[i]).wf() && s[i].timestamp.plain_year(),
    ensures
        forall|j: int| 0 <= j < r.daily_usage@.len() ==> {
            let d = (#[trigger] r.daily_usage@[j]).date@;
            &&& d.len() == 10
            &&& d[4] == '-' && d[7] == '-'
            &&& forall|c: int| 0 <= c < 10 && c != 4 && c != 7 ==> is_digit(#[trigger] d[c])
        },
        forall|a: int, b: int| 0 <= a < b < r.daily_usage@.len() ==> crate::text::text_lt(
            r.daily_usage@[a].date@,
            r.daily_usage@[b].date@,
        ),
{
    let rows = r.daily_usage@;
    assert forall|j: int| 0 <= j < rows.len() implies {
        let d = (#[trigger] rows[j]).date@;
        &&& d.len() == 10
        &&& d[4] == '-' && d[7] == '-'
        &&& forall|c: int| 0 <= c < 10 && c != 4 && c != 7 ==> is_digit(#[trigger] d[c])
    } by {
        let d = rows[j].date@;
        assert(daily_keys(rows)[j] == d);
        assert(key_occurs(s, KeyKind::Day, d));
        let i = choose|i: int| 0 <= i < s.len() && key_of(s[i], KeyKind::Day) == d;
        let t = s[i].timestamp;
        assert(t.wf());
        crate::text::lemma_fixed_digits_len(t.year as nat, 4);
        crate::text::lemma_fixed_digits_len(t.month as nat, 2);
        crate::text::lemma_fixed_digits_len(t.day as nat, 2);
        let y = crate::text::fixed_digits(t.year as nat, 4);
        let mo = crate::text::fixed_digits(t.month as nat, 2);
        let dd = crate::text::fixed_digits(t.day as nat, 2);
        assert forall|c: int| 0 <= c < 10 && c != 4 && c != 7 implies is_digit(#[trigger] d[c]) by {
            if c < 4 {
                assert(d[c] == y[c]);
            } else if c < 7 {
                assert(d[c] == mo[c - 5]);
            } else {
                assert(d[c] == dd[c - 8]);
            }
        }
    }
    assert forall|a: int, b: int| 0 <= a < b < rows.len() implies crate::text::text_lt(rows[a].date@, rows[b].date@) by {
        assert(daily_keys(rows)[a] == rows[a].date@);
        assert(daily_keys(rows)[b] == rows[b].date@);
        assert(key_occurs(s, KeyKind::Day, rows[a].date@));
        assert(key_occurs(s, KeyKind::Day, rows[b].date@));
        let i = choose|i: int| 0 <= i < s.len() && key_of(s[i], KeyKind::Day) == rows[a].date@;
        let j = choose|j: int| 0 <= j < s.len() && key_of(s[j], KeyKind::Day) == rows[b].date@;
        assert(crate::aggregator::days_in_order(s, rows[a].date@, rows[b].date@));
        crate::models::lemma_date_text_order(s[i].timestamp, s[j].timestamp);
    }
}

} // verus!
