//! Character-level helpers on strings, stated over `Seq<char>`.

use vstd::prelude::*;
use vstd::std_specs::iter::IteratorSpec;

verus! {

/// `p` occurs in `s` starting at position `i`.
pub open spec fn occurs_at(s: Seq<char>, p: Seq<char>, i: int) -> bool {
    0 <= i && i + p.len() <= s.len() && s.subrange(i, i + p.len()) == p
}

/// `p` occurs somewhere in `s` as a contiguous run of characters.
pub open spec fn seq_contains(s: Seq<char>, p: Seq<char>) -> bool {
    exists|i: int| occurs_at(s, p, i)
}

/// The characters of `s`, in order.
pub fn chars_of(s: &str) -> (r: Vec<char>)
    ensures
        r@ == s@,
{
    let mut r: Vec<char> = Vec::new();
    for c in it: s.chars()
        invariant
            r@ == it.seq().take(it.index() as int),
    {
        r.push(c);
    }
    assert(r@ == s@);
    r
}


/// Naive search for `p` in `s`.
pub fn contains_chars(s: &Vec<char>, p: &Vec<char>) -> (r: bool)
    ensures
        r == seq_contains(s@, p@),
{
    if p.len() > s.len() {
        return false;
    }
    let last: usize = s.len() - p.len();
    let mut i: usize = 0;
    while i <= last
        invariant
            last == s.len() - p.len(),
            p.len() <= s.len(),
            forall|k: int| 0 <= k < i ==> !occurs_at(s@, p@, k),
        decreases last + 1 - i,
    {
        let mut j: usize = 0;
        let mut same = true;
        while j < p.len()
            invariant
                i <= last,
                last == s.len() - p.len(),
                j <= p.len(),
                same == (forall|m: int| 0 <= m < j ==> s@[i + m] == p@[m]),
            decreases p.len() - j,
        {
            if s[i + j] != p[j] {
                same = false;
            }
            j = j + 1;
        }
        if same {
            assert(s@.subrange(i as int, i + p.len()) =~= p@);
            assert(occurs_at(s@, p@, i as int));
            return true;
        }
        assert(!occurs_at(s@, p@, i as int)) by {
            if s@.subrange(i as int, i + p.len()) == p@ {
                assert(forall|m: int| 0 <= m < p.len() ==> s@[i + m] == #[trigger] p@[m]);
            }
        }
        i = i + 1;
    }
    assert forall|k: int| !occurs_at(s@, p@, k) by {
        if 0 <= k && k + p.len() <= s.len() {
            assert(k < i);
        }
    }
    false
}

/// Whether `p` occurs in `s`.
pub fn str_contains(s: &str, p: &str) -> (r: bool)
    ensures
        r == seq_contains(s@, p@),
{
    let sc = chars_of(s);
    let pc = chars_of(p);
    contains_chars(&sc, &pc)
}

/// The decimal digit character for `d` (taken modulo ten).
pub open spec fn digit_char(d: int) -> char {
    let m = d % 10;
    if m == 0 { '0' } else if m == 1 { '1' } else if m == 2 { '2' } else if m == 3 { '3' }
    else if m == 4 { '4' } else if m == 5 { '5' } else if m == 6 { '6' } else if m == 7 { '7' }
    else if m == 8 { '8' } else { '9' }
}

/// Whether `c` is one of the characters `0` to `9`.
pub open spec fn is_digit(c: char) -> bool {
    '0' <= c && c <= '9'
}

/// The last `width` decimal digits of `n`, zero-padded on the left.
pub open spec fn fixed_digits(n: nat, width: nat) -> Seq<char>
    decreases width,
{
    if width == 0 {
        Seq::empty()
    } else {
        fixed_digits(n / 10, (width - 1) as nat).push(digit_char(n as int))
    }
}

/// `fixed_digits` has exactly `width` characters, all digits.
pub proof fn lemma_fixed_digits_len(n: nat, width: nat)
    ensures
        fixed_digits(n, width).len() == width,
        forall|i: int| 0 <= i < width ==> is_digit(#[trigger] fixed_digits(n, width)[i]),
    decreases width,
{
    if width > 0 {
        lemma_fixed_digits_len(n / 10, (width - 1) as nat);
    }
}

/// `a` comes before `b` in the lexicographic order of characters.
pub open spec fn text_lt(a: Seq<char>, b: Seq<char>) -> bool {
    (exists|i: int| 0 <= i < a.len() && i < b.len() && a.take(i) == b.take(i) && #[trigger] a[i] < b[i])
        || (a.len() < b.len() && a == b.take(a.len() as int))
}

/// Digits compare as their values do.
pub proof fn lemma_digit_char_order(d1: int, d2: int)
    requires
        0 <= d1 < d2 < 10,
    ensures
        digit_char(d1) < digit_char(d2),
{
}

/// Zero-padded numbers of one width compare as their values do.
pub proof fn lemma_fixed_digits_order(n1: nat, n2: nat, width: nat)
    requires
        n1 < n2 < crate::amount::pow10(width),
    ensures
        text_lt(fixed_digits(n1, width), fixed_digits(n2, width)),
    decreases width,
{
    if width == 0 {
        assert(crate::amount::pow10(0) == 1);
    } else {
        let w1 = (width - 1) as nat;
        let a = fixed_digits(n1 / 10, w1);
        let b = fixed_digits(n2 / 10, w1);
        lemma_fixed_digits_len(n1 / 10, w1);
        lemma_fixed_digits_len(n2 / 10, w1);
        assert(n2 / 10 < crate::amount::pow10(w1)) by (nonlinear_arith)
            requires
                n2 < crate::amount::pow10(width),
                crate::amount::pow10(width) == 10 * crate::amount::pow10(w1),
        ;
        if n1 / 10 < n2 / 10 {
            lemma_fixed_digits_order(n1 / 10, n2 / 10, w1);
            let i = choose|i: int| 0 <= i < a.len() && i < b.len() && a.take(i) == b.take(i) && #[trigger] a[i] < b[i];
            let a2 = a.push(digit_char(n1 as int));
            let b2 = b.push(digit_char(n2 as int));
            assert(a2.take(i) =~= a.take(i));
            assert(b2.take(i) =~= b.take(i));
            assert(a2[i] == a[i] && b2[i] == b[i]);
        } else {
            assert(n1 / 10 == n2 / 10);
            assert(n1 % 10 < n2 % 10);
            let a2 = a.push(digit_char(n1 as int));
            let b2 = b.push(digit_char(n2 as int));
            lemma_digit_char_order((n1 % 10) as int, (n2 % 10) as int);
            assert(digit_char(n1 as int) == digit_char((n1 % 10) as int));
            assert(digit_char(n2 as int) == digit_char((n2 % 10) as int));
            assert(a2.take(w1 as int) =~= a);
            assert(b2.take(w1 as int) =~= b);
            assert(a2[w1 as int] < b2[w1 as int]);
        }
    }
}

/// Appending to both sides keeps a difference found among equal lengths.
pub proof fn lemma_text_lt_append(a: Seq<char>, b: Seq<char>, c: Seq<char>, d: Seq<char>)
    requires
        text_lt(a, b),
        a.len() == b.len(),
    ensures
        text_lt(a + c, b + d),
{
    let i = choose|i: int| 0 <= i < a.len() && i < b.len() && a.take(i) == b.take(i) && #[trigger] a[i] < b[i];
    assert((a + c).take(i) =~= a.take(i));
    assert((b + d).take(i) =~= b.take(i));
    assert((a + c)[i] == a[i] && (b + d)[i] == b[i]);
}

/// A common prefix keeps the order of what follows it.
pub proof fn lemma_text_lt_prefix(p: Seq<char>, a: Seq<char>, b: Seq<char>)
    requires
        text_lt(a, b),
        a.len() == b.len(),
    ensures
        text_lt(p + a, p + b),
{
    let i = choose|i: int| 0 <= i < a.len() && i < b.len() && a.take(i) == b.take(i) && #[trigger] a[i] < b[i];
    let j = p.len() + i;
    assert((p + a).take(j) =~= p + a.take(i));
    assert((p + b).take(j) =~= p + b.take(i));
    assert((p + a)[j] == a[i] && (p + b)[j] == b[i]);
}

/// A digit character is worth its digit.
pub proof fn lemma_digit_char_value(d: int)
    requires
        d >= 0,
    ensures
        digit_char(d) as int - '0' as int == d % 10,
{
}

/// Zero-padded digits read back as the number modulo the width's power.
pub proof fn lemma_fixed_digits_value(n: nat, width: nat)
    ensures
        crate::amount::digits_value(fixed_digits(n, width)) == n % crate::amount::pow10(width),
    decreases width,
{
    if width == 0 {
        assert(crate::amount::pow10(0) == 1);
    } else {
        let w1 = (width - 1) as nat;
        lemma_fixed_digits_value(n / 10, w1);
        let f = fixed_digits(n / 10, w1);
        assert(fixed_digits(n, width).drop_last() =~= f);
        lemma_digit_char_value(n as int);
        crate::amount::lemma_pow10_positive(w1);
        vstd::arithmetic::div_mod::lemma_breakdown(n as int, 10, crate::amount::pow10(w1) as int);
    }
}

/// Decimal text is all digits.
pub proof fn lemma_decimal_digits(n: nat)
    ensures
        forall|i: int| 0 <= i < decimal(n).len() ==> is_digit(#[trigger] decimal(n)[i]),
    decreases n,
{
    if n >= 10 {
        lemma_decimal_digits(n / 10);
        assert forall|i: int| 0 <= i < decimal(n).len() implies is_digit(#[trigger] decimal(n)[i]) by {
            if i < decimal(n / 10).len() {
                assert(decimal(n)[i] == decimal(n / 10)[i]);
            }
        }
    }
}

/// Decimal text reads back as the number.
pub proof fn lemma_decimal_value(n: nat)
    ensures
        crate::amount::digits_value(decimal(n)) == n,
    decreases n,
{
    lemma_digit_char_value(n as int);
    let c = digit_char(n as int);
    assert(c as int >= '0' as int);
    assert(decimal(n).last() == c);
    if n < 10 {
        assert(decimal(n).drop_last() =~= Seq::<char>::empty());
        assert(crate::amount::digits_value(Seq::<char>::empty()) == 0);
    } else {
        lemma_decimal_value(n / 10);
        assert(decimal(n).drop_last() =~= decimal(n / 10));
        vstd::arithmetic::div_mod::lemma_fundamental_div_mod(n as int, 10);
    }
}

/// The usual decimal text of `n`, without leading zeros.
pub open spec fn decimal(n: nat) -> Seq<char>
    decreases n,
{
    if n < 10 {
        seq![digit_char(n as int)]
    } else {
        decimal(n / 10).push(digit_char(n as int))
    }
}

/// The one-character text of the digit `d`.
pub fn digit_text(d: u64) -> (r: &'static str)
    requires
        d < 10,
    ensures
        r@ == seq![digit_char(d as int)],
{
    proof {
        reveal_strlit("0");
        reveal_strlit("1");
        reveal_strlit("2");
        reveal_strlit("3");
        reveal_strlit("4");
        reveal_strlit("5");
        reveal_strlit("6");
        reveal_strlit("7");
        reveal_strlit("8");
        reveal_strlit("9");
    }
    if d == 0 { "0" } else if d == 1 { "1" } else if d == 2 { "2" } else if d == 3 { "3" }
    else if d == 4 { "4" } else if d == 5 { "5" } else if d == 6 { "6" } else if d == 7 { "7" }
    else if d == 8 { "8" } else { "9" }
}

/// Appends the last `width` digits of `n`, zero-padded.
pub fn push_fixed_digits(out: &mut String, n: u64, width: u64)
    ensures
        final(out)@ == old(out)@ + fixed_digits(n as nat, width as nat),
    decreases width,
{
    if width > 0 {
        push_fixed_digits(out, n / 10, width - 1);
        out.append(digit_text(n % 10));
    }
}

/// Appends the decimal text of `n`.
pub fn push_decimal(out: &mut String, n: u64)
    ensures
        final(out)@ == old(out)@ + decimal(n as nat),
    decreases n,
{
    if n >= 10 {
        push_decimal(out, n / 10);
    }
    out.append(digit_text(n % 10));
}

} // verus!
