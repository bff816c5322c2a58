//! Ordering by integer keys, through std's slice sort.

use vstd::prelude::*;

verus! {

/// The lexicographic order of `(key, index)` pairs.
pub open spec fn pair_le(a: (i128, usize), b: (i128, usize)) -> bool {
    a.0 < b.0 || (a.0 == b.0 && a.1 <= b.1)
}

/// Relies on std's `<[T]>::sort_unstable`: it reorders the items (no item is
/// lost or added) into ascending order, which for tuples is lexicographic.
#[verifier::external_body]
fn sort_pairs(v: &mut Vec<(i128, usize)>)
    ensures
        final(v)@.to_multiset() == old(v)@.to_multiset(),
        forall|i: int, j: int| 0 <= i < j < final(v)@.len() ==> pair_le(final(v)@[i], final(v)@[j]),
{
    v.sort_unstable();
}

/// `order` lists every index below `n` exactly once.
pub open spec fn is_permutation(order: Seq<usize>, n: nat) -> bool {
    &&& order.len() == n
    &&& forall|i: int| 0 <= i < order.len() ==> order[i] < n
    &&& forall|i: int, j: int| 0 <= i < j < order.len() ==> order[i] != order[j]
    &&& forall|k: int| 0 <= k < n ==> #[trigger] listed(order, k)
}

/// `k` stands somewhere in `order`.
pub open spec fn listed(order: Seq<usize>, k: int) -> bool {
    exists|i: int| 0 <= i < order.len() && order[i] == k
}

/// `order` read from the back.
pub open spec fn reversed(order: Seq<usize>) -> Seq<usize> {
    Seq::new(order.len(), |k: int| order[order.len() - 1 - k])
}

/// A permutation read from the back is one too.
pub proof fn lemma_reversed_permutation(order: Seq<usize>, n: nat)
    requires
        is_permutation(order, n),
    ensures
        is_permutation(reversed(order), n),
{
    let r = reversed(order);
    assert forall|k: int| 0 <= k < n implies #[trigger] listed(r, k) by {
        assert(listed(order, k));
        let i = choose|i: int| 0 <= i < order.len() && order[i] == k;
        assert(r[n - 1 - i] == k);
    }
}

/// The indices of `keys`, in ascending order of key.
pub fn ascending_order(keys: &Vec<i128>) -> (r: Vec<usize>)
    ensures
        is_permutation(r@, keys@.len()),
        forall|i: int, j: int| 0 <= i < j < r@.len() ==> keys@[r@[i] as int] <= keys@[r@[j] as int],
{
    let n = keys.len();
    let mut pairs: Vec<(i128, usize)> = Vec::new();
    let mut i: usize = 0;
    while i < n
        invariant
            n == keys.len(),
            i <= n,
            pairs@.len() == i,
            forall|k: int| 0 <= k < i ==> #[trigger] pairs@[k] == (keys@[k], k as usize),
        decreases n - i,
    {
        pairs.push((keys[i], i));
        i = i + 1;
    }
    let ghost before = pairs@;
    proof {
        assert(before.no_duplicates());
        before.lemma_multiset_has_no_duplicates();
    }
    sort_pairs(&mut pairs);
    let ghost after = pairs@;
    proof {
        broadcast use vstd::seq_lib::group_to_multiset_ensures;
        assert(after.len() == before.len()) by {
            before.to_multiset_ensures();
            after.to_multiset_ensures();
        }
        assert forall|k: int| 0 <= k < after.len() implies before.contains(#[trigger] after[k]) by {
            assert(after.contains(after[k]));
            vstd::seq_lib::to_multiset_contains(after, after[k]);
            vstd::seq_lib::to_multiset_contains(before, after[k]);
        }
        after.lemma_multiset_has_no_duplicates_conv();
    }
    let mut r: Vec<usize> = Vec::new();
    let mut j: usize = 0;
    while j < n
        invariant
            n == keys.len(),
            after.len() == n,
            pairs@ == after,
            before.len() == n,
            forall|k: int| 0 <= k < n ==> #[trigger] before[k] == (keys@[k], k as usize),
            forall|k: int| 0 <= k < after.len() ==> before.contains(#[trigger] after[k]),
            after.no_duplicates(),
            j <= n,
            r@.len() == j,
            forall|k: int| 0 <= k < j ==> #[trigger] r@[k] == after[k].1,
        decreases n - j,
    {
        r.push(pairs[j].1);
        j = j + 1;
    }
    assert forall|k: int| 0 <= k < n implies after[k].0 == keys@[after[k].1 as int] && after[k].1 < n by {
        assert(before.contains(after[k]));
        let m = choose|m: int| 0 <= m < before.len() && before[m] == after[k];
        assert(before[m] == (keys@[m], m as usize));
    }
    assert forall|a: int, b: int| 0 <= a < b < r@.len() implies r@[a] != r@[b] by {
        if r@[a] == r@[b] {
            assert(after[a] == after[b]);
        }
    }
    assert forall|g: int| 0 <= g < n implies #[trigger] listed(r@, g) by {
        assert(before[g] == (keys@[g], g as usize));
        assert(before.contains(before[g]));
        vstd::seq_lib::to_multiset_contains(before, before[g]);
        vstd::seq_lib::to_multiset_contains(after, before[g]);
        let i = choose|i: int| 0 <= i < after.len() && after[i] == before[g];
        assert(r@[i] == g);
    }
    assert forall|a: int, b: int| 0 <= a < b < r@.len() implies keys@[r@[a] as int] <= keys@[r@[b] as int] by {
        assert(pair_le(after[a], after[b]));
    }
    r
}

} // verus!
