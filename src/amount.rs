//! Reading a dollar amount written as a JSON number into whole billionths
//! of a dollar.

use vstd::prelude::*;
use crate::text::is_digit;

verus! {

/// The value of a run of decimal digits (zero for the empty run).
pub open spec fn digits_value(s: Seq<char>) -> nat
    decreases s.len(),
{
    if s.len() == 0 {
        0
    } else {
        digits_value(s.drop_last()) * 10 + (s.last() as nat - '0' as nat) as nat
    }
}

/// Every character of `s` is a decimal digit.
pub open spec fn all_digits(s: Seq<char>) -> bool {
    forall|i: int| 0 <= i < s.len() ==> is_digit(#[trigger] s[i])
}

/// The first position at or after `from` that holds `a` or `b`, else the length.
pub open spec fn find_either(s: Seq<char>, a: char, b: char, from: int) -> int
    decreases s.len() - from,
{
    if from >= s.len() {
        s.len() as int
    } else if s[from] == a || s[from] == b {
        from
    } else {
        find_either(s, a, b, from + 1)
    }
}

/// `n` zero digits.
pub open spec fn zeros(n: nat) -> Seq<char> {
    Seq::new(n, |i: int| '0')
}

/// The digit run `d` shifted by `k` decimal places: `k` zeros appended when
/// `k` is not negative, else the last `-k` digits dropped (which truncates).
pub open spec fn shifted(d: Seq<char>, k: int) -> Seq<char> {
    if k >= 0 {
        d + zeros(k as nat)
    } else if d.len() + k > 0 {
        d.take(d.len() + k)
    } else {
        Seq::empty()
    }
}

/// The signed exponent written after `e` or `E`: an optional sign and one to
/// four digits.
pub open spec fn exponent_of(x: Seq<char>) -> Option<int> {
    let neg = x.len() > 0 && x[0] == '-';
    let signed = x.len() > 0 && (x[0] == '-' || x[0] == '+');
    let ds = if signed { x.drop_first() } else { x };
    if 1 <= ds.len() <= 4 && all_digits(ds) {
        Some(if neg { -digits_value(ds) } else { digits_value(ds) as int })
    } else {
        None
    }
}

/// A non-negative JSON number `int[.frac][(e|E)[sign]exp]` as billionths of
/// its value, rounded toward zero; none for other text (a minus sign
/// included), for an exponent of more than four digits, and for a result
/// past `u64::MAX`.
pub open spec fn nanos_of_amount(s: Seq<char>) -> Option<u64> {
    let e = find_either(s, 'e', 'E', 0);
    let dot = find_either(s.take(e), '.', '.', 0);
    let int_part = s.take(dot);
    let frac = if dot < e { s.subrange(dot + 1, e) } else { Seq::empty() };
    let exp = if e < s.len() { exponent_of(s.skip(e + 1)) } else { Some(0) };
    if int_part.len() == 0 || !all_digits(int_part) || (dot < e && (frac.len() == 0 || !all_digits(frac)))
        || exp is None {
        None
    } else {
        let v = digits_value(shifted(int_part + frac, 9 - frac.len() + exp->0));
        if v <= u64::MAX {
            Some(v as u64)
        } else {
            None
        }
    }
}

proof fn lemma_digits_value_push(s: Seq<char>, c: char)
    ensures
        digits_value(s.push(c)) == digits_value(s) * 10 + (c as nat - '0' as nat) as nat,
{
    assert(s.push(c).drop_last() =~= s);
}

/// A longer run is worth at least as much as its prefix.
proof fn lemma_digits_value_prefix(s: Seq<char>, j: int)
    requires
        0 <= j <= s.len(),
        all_digits(s),
    ensures
        digits_value(s.take(j)) <= digits_value(s),
    decreases s.len() - j,
{
    if j < s.len() {
        lemma_digits_value_prefix(s, j + 1);
        assert(s.take(j + 1).drop_last() =~= s.take(j));
        assert(s.take(j + 1).last() == s[j]);
        assert(is_digit(s[j]));
    } else {
        assert(s.take(j) =~= s);
    }
}

fn find_either_exec(s: &Vec<char>, a: char, b: char, from: usize, to: usize) -> (r: usize)
    requires
        from <= to <= s.len(),
    ensures
        r == find_either(s@.take(to as int), a, b, from as int),
        from <= r <= to,
    decreases to - from,
{
    if from >= to {
        from
    } else if s[from] == a || s[from] == b {
        from
    } else {
        find_either_exec(s, a, b, from + 1, to)
    }
}

fn all_digits_exec(s: &Vec<char>, from: usize, to: usize) -> (r: bool)
    requires
        from <= to <= s.len(),
    ensures
        r == all_digits(s@.subrange(from as int, to as int)),
{
    let mut i = from;
    while i < to
        invariant
            from <= i <= to <= s.len(),
            forall|k: int| from <= k < i ==> is_digit(s@[k]),
        decreases to - i,
    {
        if !(s[i] >= '0' && s[i] <= '9') {
            assert(!is_digit(s@.subrange(from as int, to as int)[i - from]));
            return false;
        }
        i = i + 1;
    }
    assert forall|k: int| 0 <= k < to - from implies is_digit(#[trigger] s@.subrange(from as int, to as int)[k]) by {
        assert(is_digit(s@[from + k]));
    }
    true
}

/// Reads the digits `s[from..to]`, at most four of them.
fn small_value(s: &Vec<char>, from: usize, to: usize) -> (r: u64)
    requires
        from <= to <= s.len(),
        to - from <= 4,
        all_digits(s@.subrange(from as int, to as int)),
    ensures
        r == digits_value(s@.subrange(from as int, to as int)),
{
    let mut v: u64 = 0;
    let mut i = from;
    proof {
        lemma_pow10_small();
    }
    assert(s@.subrange(from as int, from as int) =~= Seq::<char>::empty());
    while i < to
        invariant
            from <= i <= to <= s.len(),
            to - from <= 4,
            all_digits(s@.subrange(from as int, to as int)),
            v == digits_value(s@.subrange(from as int, i as int)),
            v < pow10((i - from) as nat),
            pow10(0) == 1 && pow10(1) == 10 && pow10(2) == 100 && pow10(3) == 1000 && pow10(4) == 10000,
        decreases to - i,
    {
        assert(is_digit(s@.subrange(from as int, to as int)[i - from]));
        proof {
            lemma_digits_value_push(s@.subrange(from as int, i as int), s@[i as int]);
            assert(s@.subrange(from as int, i as int).push(s@[i as int]) =~= s@.subrange(from as int, i + 1));
        }
        v = v * 10 + (s[i] as u64 - '0' as u64);
        i = i + 1;
    }
    v
}

pub proof fn lemma_pow10_small()
    ensures
        pow10(0) == 1 && pow10(1) == 10 && pow10(2) == 100 && pow10(3) == 1000 && pow10(4) == 10000,
{
    assert(pow10(0) == 1);
    assert(pow10(1) == 10);
    assert(pow10(2) == 100);
    assert(pow10(3) == 1000);
    assert(pow10(4) == 10000);
}

pub proof fn lemma_pow10_positive(n: nat)
    ensures
        pow10(n) > 0,
    decreases n,
{
    if n > 0 {
        lemma_pow10_positive((n - 1) as nat);
    }
}

pub open spec fn pow10(n: nat) -> nat
    decreases n,
{
    if n == 0 { 1 } else { 10 * pow10((n - 1) as nat) }
}

/// The exponent after the `e` at position `e`.
fn exponent_exec(s: &Vec<char>, e: usize) -> (r: Option<i128>)
    requires
        e < s.len(),
    ensures
        r == (match exponent_of(s@.skip(e + 1)) {
            Some(x) => Some(x as i128),
            None => None::<i128>,
        }),
        r matches Some(x) ==> -9999 <= x <= 9999,
        exponent_of(s@.skip(e + 1)) matches Some(x) ==> -9999 <= x <= 9999,
{
    let n = s.len();
    let ghost x = s@.skip(e + 1);
    let neg = e + 1 < n && s[e + 1] == '-';
    let signed = e + 1 < n && (s[e + 1] == '-' || s[e + 1] == '+');
    let ds: usize = if signed { e + 2 } else { e + 1 };
    proof {
        if signed {
            assert(x.drop_first() =~= s@.subrange(ds as int, n as int));
        } else {
            assert(x =~= s@.subrange(ds as int, n as int));
        }
    }
    if n - ds < 1 || n - ds > 4 || !all_digits_exec(s, ds, n) {
        return None;
    }
    let v = small_value(s, ds, n);
    proof {
        lemma_digits_value_bound(s@.subrange(ds as int, n as int));
        lemma_pow10_small();
    }
    if neg {
        Some(-(v as i128))
    } else {
        Some(v as i128)
    }
}

proof fn lemma_digits_value_bound(s: Seq<char>)
    requires
        all_digits(s),
    ensures
        digits_value(s) < pow10(s.len()),
    decreases s.len(),
{
    if s.len() > 0 {
        assert(all_digits(s.drop_last()));
        lemma_digits_value_bound(s.drop_last());
        assert(is_digit(s.last()));
        let v = digits_value(s.drop_last());
        let p = pow10(s.drop_last().len());
        let dv = (s.last() as nat - '0' as nat) as nat;
        assert(v * 10 + dv < 10 * p) by (nonlinear_arith)
            requires
                v < p,
                dv <= 9,
        ;
    }
}

/// The value of the digit run `s[..dot] + s[dot+1..e]` (the fraction only
/// when `dot < e`) shifted by `k` places, if it fits in a `u64`.
fn shifted_value(s: &Vec<char>, dot: usize, e: usize, k: i128) -> (r: Option<u64>)
    requires
        dot <= e <= s.len(),
        -(s.len() as int) - 10000 <= k <= 10009,
        all_digits(s@.take(dot as int)),
        dot < e ==> all_digits(s@.subrange(dot + 1, e as int)),
    ensures
        ({
            let d = s@.take(dot as int) + (if dot < e { s@.subrange(dot + 1, e as int) } else { Seq::<char>::empty() });
            let v = digits_value(shifted(d, k as int));
            r == if v <= u64::MAX { Some(v as u64) } else { None::<u64> }
        }),
{
    let ghost d = s@.take(dot as int) + (if dot < e { s@.subrange(dot + 1, e as int) } else { Seq::<char>::empty() });
    let dlen: usize = if dot < e { e - 1 } else { dot };
    assert(d.len() == dlen);
    let total: i128 = dlen as i128 + k;
    let ghost sh = shifted(d, k as int);
    assert(sh.len() == if total > 0 { total } else { 0 });
    assert(all_digits(d)) by {
        assert forall|i: int| 0 <= i < d.len() implies is_digit(#[trigger] d[i]) by {
            if i < dot {
                assert(is_digit(s@.take(dot as int)[i]));
            } else {
                assert(is_digit(s@.subrange(dot + 1, e as int)[i - dot]));
            }
        }
    }
    assert(all_digits(sh));
    assert(sh.take(0) =~= Seq::<char>::empty());
    let mut v: u64 = 0;
    let mut i: i128 = 0;
    while i < total
        invariant
            0 <= i,
            total > 0 ==> i <= total,
            total <= 0 ==> i == 0,
            sh.len() == if total > 0 { total } else { 0 },
            sh == shifted(d, k as int),
            d.len() == dlen,
            dot <= e <= s.len(),
            dlen == if dot < e { e - 1 } else { dot as int },
            d == s@.take(dot as int) + (if dot < e { s@.subrange(dot + 1, e as int) } else { Seq::<char>::empty() }),
            all_digits(sh),
            v == digits_value(sh.take(i as int)),
        decreases total - i,
    {
        let c: char = if i < dot as i128 {
            s[i as usize]
        } else if i < dlen as i128 {
            s[i as usize + 1]
        } else {
            '0'
        };
        assert(c == sh[i as int]);
        assert(is_digit(c));
        proof {
            lemma_digits_value_push(sh.take(i as int), c);
            assert(sh.take(i as int).push(c) =~= sh.take(i + 1));
        }
        let dv: u64 = c as u64 - '0' as u64;
        if v > (u64::MAX - dv) / 10 {
            proof {
                lemma_digits_value_prefix(sh, i + 1);
                assert(v * 10 + dv > u64::MAX) by (nonlinear_arith)
                    requires
                        v > (u64::MAX - dv) / 10,
                        dv <= 9,
                ;
            }
            return None;
        }
        v = v * 10 + dv;
        i = i + 1;
    }
    assert(i == sh.len());
    assert(sh.take(sh.len() as int) =~= sh);
    assert(v == digits_value(sh));
    Some(v)
}

/// Reads a dollar amount such as `0.0123` or `1.5e-5` as billionths of a
/// dollar, rounded toward zero.
pub fn parse_amount_nanos(text: &str) -> (r: Option<u64>)
    ensures
        r == nanos_of_amount(text@),
{
    let s = crate::text::chars_of(text);
    let n = s.len();
    let e = find_either_exec(&s, 'e', 'E', 0, n);
    let dot = find_either_exec(&s, '.', '.', 0, e);
    proof {
        assert(s@.take(n as int) =~= s@);
        assert(s@.take(e as int).take(e as int) =~= s@.take(e as int));
        assert(s@.subrange(0, dot as int) =~= s@.take(dot as int));
    }
    if dot == 0 || !all_digits_exec(&s, 0, dot) {
        return None;
    }
    if dot < e && (dot + 1 == e || !all_digits_exec(&s, dot + 1, e)) {
        return None;
    }
    let exp: i128 = if e < n {
        match exponent_exec(&s, e) {
            Some(x) => x,
            None => {
                return None;
            },
        }
    } else {
        0
    };
    let frac_len: usize = if dot < e { e - dot - 1 } else { 0 };
    let k: i128 = 9 - frac_len as i128 + exp;
    proof {
        let ss = text@;
        let e2 = find_either(ss, 'e', 'E', 0);
        let dot2 = find_either(ss.take(e2), '.', '.', 0);
        assert(e2 == e);
        assert(dot2 == dot);
        let frac = if dot < e { ss.subrange(dot + 1, e as int) } else { Seq::empty() };
        assert(frac.len() == frac_len);
        let ex = if e < ss.len() { exponent_of(ss.skip(e + 1)) } else { Some(0) };
        assert(ex == Some(exp as int));
    }
    shifted_value(&s, dot, e, k)
}

} // verus!
