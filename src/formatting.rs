//! Display helpers for token counts and project paths.

use vstd::prelude::*;
use crate::models::Timestamp;
use crate::text::{decimal, digit_char, fixed_digits, push_decimal, push_fixed_digits};

verus! {

/// `n` divided by `unit`, in tenths, rounded to the nearest tenth (an exact
/// half to the even tenth).
pub open spec fn tenths_of(n: nat, unit: nat) -> nat
    recommends
        unit > 0,
{
    let q = (n * 10) as int / unit as int;
    let rem = (n * 10) as int % unit as int;
    if rem * 2 > unit || (rem * 2 == unit && q % 2 == 1) {
        (q + 1) as nat
    } else {
        q as nat
    }
}

/// `n / unit` with one decimal, then `suffix`.
pub open spec fn scaled_text(n: nat, unit: nat, suffix: Seq<char>) -> Seq<char> {
    let q = tenths_of(n, unit);
    decimal(q / 10) + seq!['.', digit_char((q % 10) as int)] + suffix
}

/// A token count for display: plain below a thousand, else in thousands
/// (`K`), millions (`M`) or billions (`B`) with one decimal.
pub open spec fn tokens_text(n: nat) -> Seq<char> {
    if n < 1000 {
        decimal(n)
    } else if n < 1_000_000 {
        scaled_text(n, 1000, "K"@)
    } else if n < 1_000_000_000 {
        scaled_text(n, 1_000_000, "M"@)
    } else {
        scaled_text(n, 1_000_000_000, "B"@)
    }
}

fn push_scaled(out: &mut String, n: u64, unit: u64, suffix: &str)
    requires
        unit == 1000 || unit == 1_000_000 || unit == 1_000_000_000,
    ensures
        final(out)@ == old(out)@ + scaled_text(n as nat, unit as nat, suffix@),
{
    let num: u128 = n as u128 * 10;
    let q0: u128 = num / (unit as u128);
    let rem: u128 = num % (unit as u128);
    assert(q0 < u64::MAX) by (nonlinear_arith)
        requires
            q0 == num / (unit as u128),
            num <= u64::MAX as u128 * 10,
            unit >= 1000,
    ;
    let q: u64 = if rem * 2 > unit as u128 || (rem * 2 == unit as u128 && q0 % 2 == 1) {
        (q0 + 1) as u64
    } else {
        q0 as u64
    };
    push_decimal(out, q / 10);
    out.append(".");
    out.append(crate::text::digit_text(q % 10));
    out.append(suffix);
    proof {
        reveal_strlit(".");
        assert(seq!['.'] + seq![digit_char((q % 10) as int)] =~= seq!['.', digit_char((q % 10) as int)]);
    }
    assert(final(out)@ =~= old(out)@ + scaled_text(n as nat, unit as nat, suffix@));
}

/// A token count for display, as `500`, `1.5K`, `2.5M` or `1.2B`.
pub fn format_tokens(tokens: u64) -> (r: String)
    ensures
        r@ == tokens_text(tokens as nat),
{
    let mut out = String::new();
    if tokens < 1000 {
        push_decimal(&mut out, tokens);
    } else if tokens < 1_000_000 {
        push_scaled(&mut out, tokens, 1000, "K");
    } else if tokens < 1_000_000_000 {
        push_scaled(&mut out, tokens, 1_000_000, "M");
    } else {
        push_scaled(&mut out, tokens, 1_000_000_000, "B");
    }
    assert(out@ =~= tokens_text(tokens as nat));
    out
}

/// The number of `/` in `s`.
pub open spec fn slash_count(s: Seq<char>) -> nat
    decreases s.len(),
{
    if s.len() == 0 {
        0
    } else {
        slash_count(s.drop_last()) + if s.last() == '/' {
            1nat
        } else {
            0
        }
    }
}

/// What follows the last `/` of `s` (all of `s` when it has none).
pub open spec fn last_part(s: Seq<char>) -> Seq<char>
    decreases s.len(),
{
    if s.len() == 0 {
        s
    } else if s.last() == '/' {
        Seq::empty()
    } else {
        last_part(s.drop_last()).push(s.last())
    }
}

/// A path shortened to `max_length` characters for display: kept when it
/// fits; else `.../` and its last part when it has three or more parts;
/// else its first `max_length - 3` characters and `...`.
pub open spec fn truncated_text(path: Seq<char>, max_length: nat) -> Seq<char> {
    if path.len() <= max_length {
        path
    } else if slash_count(path) >= 2 {
        ".../"@ + last_part(path)
    } else {
        path.take(max_length - 3) + "..."@
    }
}

/// Shortens a path for display; lengths count characters.
pub fn truncate_project_path(path: &str, max_length: usize) -> (r: String)
    requires
        max_length >= 3,
    ensures
        r@ == truncated_text(path@, max_length as nat),
{
    let cs = crate::text::chars_of(path);
    let n = cs.len();
    if n <= max_length {
        return String::from_str(path);
    }
    let mut slashes: usize = 0;
    let mut last_start: usize = 0;
    let mut i: usize = 0;
    while i < n
        invariant
            cs@ == path@,
            n == cs@.len(),
            i <= n,
            last_start <= i,
            slashes == slash_count(path@.take(i as int)),
            slashes <= i,
            last_part(path@.take(i as int)) == path@.subrange(last_start as int, i as int),
        decreases n - i,
    {
        assert(path@.take(i + 1).drop_last() =~= path@.take(i as int));
        if cs[i] == '/' {
            slashes = slashes + 1;
            last_start = i + 1;
            assert(path@.subrange(last_start as int, i + 1) =~= Seq::<char>::empty());
        } else {
            assert(path@.subrange(last_start as int, i as int).push(cs@[i as int]) =~= path@.subrange(
                last_start as int,
                i + 1,
            ));
        }
        i = i + 1;
    }
    assert(path@.take(n as int) =~= path@);
    if slashes >= 2 {
        let mut out = String::from_str(".../");
        out.append(path.substring_char(last_start, n));
        out
    } else {
        let mut out = String::from_str(path.substring_char(0, max_length - 3));
        out.append("...");
        assert(path@.subrange(0, max_length - 3) =~= path@.take(max_length - 3));
        out
    }
}

/// The calendar date of a moment, `YYYY-MM-DD`.
pub fn format_date(timestamp: &Timestamp) -> (r: String)
    requires
        timestamp.wf(),
    ensures
        r@ == timestamp.date_text(),
{
    timestamp.date_key()
}

/// The second of the day (UTC) at which a moment falls.
pub open spec fn second_of_day(t: Timestamp) -> int {
    t.secs as int % 86400
}

/// The seconds field of a moment: 60 inside a leap second.
pub open spec fn second_field(t: Timestamp) -> int {
    second_of_day(t) % 60 + if t.nanos >= 1_000_000_000 {
        1int
    } else {
        0
    }
}

/// `YYYY-MM-DD HH:MM:SS` of a moment.
pub open spec fn timestamp_text(t: Timestamp) -> Seq<char> {
    let sod = second_of_day(t);
    t.date_text() + seq![' '] + fixed_digits((sod / 3600) as nat, 2) + seq![':'] + fixed_digits(
        ((sod % 3600) / 60) as nat,
        2,
    ) + seq![':'] + fixed_digits(second_field(t) as nat, 2)
}

fn second_of_day_exec(secs: i64) -> (r: u64)
    ensures
        r as int == secs as int % 86400,
        r < 86400,
{
    if secs >= 0 {
        (secs as u64) % 86400
    } else {
        let a: u64 = (-(secs as i128 + 1)) as u64;
        let r = 86399 - a % 86400;
        assert(r as int == secs as int % 86400) by (nonlinear_arith)
            requires
                a as int == -(secs as int + 1),
                r as int == 86399 - a as int % 86400,
                secs < 0,
        ;
        r
    }
}

/// A moment as `YYYY-MM-DD HH:MM:SS`.
pub fn format_timestamp(timestamp: &Timestamp) -> (r: String)
    requires
        timestamp.wf(),
    ensures
        r@ == timestamp_text(*timestamp),
{
    let sod = second_of_day_exec(timestamp.secs);
    let leap: u64 = if timestamp.nanos >= 1_000_000_000 { 1 } else { 0 };
    let mut out = timestamp.date_key();
    out.append(" ");
    push_fixed_digits(&mut out, sod / 3600, 2);
    out.append(":");
    push_fixed_digits(&mut out, (sod % 3600) / 60, 2);
    out.append(":");
    push_fixed_digits(&mut out, sod % 60 + leap, 2);
    proof {
        reveal_strlit(" ");
        reveal_strlit(":");
    }
    assert(out@ =~= timestamp_text(*timestamp));
    out
}

/// Nanoseconds from `t` to `now` (leap seconds count as ordinary time).
pub open spec fn elapsed_nanos(t: Timestamp, now: Timestamp) -> int {
    (now.secs - t.secs) * 1_000_000_000 + now.nanos - t.nanos
}

/// How long ago `t` was at `now`: whole days, else whole hours, else whole
/// minutes, else `Just now` (also for a moment in the future).
pub open spec fn relative_text(t: Timestamp, now: Timestamp) -> Seq<char> {
    let n = elapsed_nanos(t, now);
    if n >= 86_400_000_000_000 {
        decimal((n / 86_400_000_000_000) as nat) + " days ago"@
    } else if n >= 3_600_000_000_000 {
        decimal((n / 3_600_000_000_000) as nat) + " hours ago"@
    } else if n >= 60_000_000_000 {
        decimal((n / 60_000_000_000) as nat) + " minutes ago"@
    } else {
        "Just now"@
    }
}

/// How long ago `timestamp` was at `now`, as `3 days ago` and the like.
pub fn format_relative_time_at(timestamp: &Timestamp, now: &Timestamp) -> (r: String)
    ensures
        r@ == relative_text(*timestamp, *now),
{
    let n: i128 = (now.secs as i128 - timestamp.secs as i128) * 1_000_000_000 + now.nanos as i128
        - timestamp.nanos as i128;
    let (unit, suffix): (i128, &str) = if n >= 86_400_000_000_000 {
        (86_400_000_000_000, " days ago")
    } else if n >= 3_600_000_000_000 {
        (3_600_000_000_000, " hours ago")
    } else if n >= 60_000_000_000 {
        (60_000_000_000, " minutes ago")
    } else {
        return String::from_str("Just now");
    };
    let count = n / unit;
    assert(count <= u64::MAX) by (nonlinear_arith)
        requires
            count == n / unit,
            unit >= 60_000_000_000,
            n <= 0x1_0000_0000_0000_0000 * 2_000_000_000,
            n >= 0,
    ;
    let mut out = String::new();
    push_decimal(&mut out, count as u64);
    out.append(suffix);
    out
}

/// How long ago `timestamp` was, reading the clock once.
pub fn format_relative_time(timestamp: &Timestamp) -> (r: String)
    ensures
        exists|now: Timestamp| r@ == relative_text(*timestamp, now),
{
    let now = crate::clock::now_utc();
    format_relative_time_at(timestamp, &now)
}

} // verus!
