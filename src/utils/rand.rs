//! Sampling helpers over a [`Rng`].
use vstd::prelude::*;
use crate::utils::Rng;

verus! {

/// Relies on `slice::swap`: exchanges the items at `i` and `j`.
#[verifier::external_body]
fn swap_items<T>(array: &mut Vec<T>, i: usize, j: usize)
    requires
        i < old(array).len(),
        j < old(array).len(),
    ensures
        final(array)@ == old(array)@.update(i as int, old(array)@[j as int]).update(
            j as int,
            old(array)@[i as int],
        ),
{
    array.swap(i, j)
}

proof fn lemma_swap_keeps_items<T>(s: Seq<T>, i: int, j: int)
    requires
        0 <= i < s.len(),
        0 <= j < s.len(),
    ensures
        s.update(i, s[j]).update(j, s[i]).to_multiset() == s.to_multiset(),
{
    broadcast use vstd::seq_lib::to_multiset_update;
    broadcast use vstd::seq_lib::group_to_multiset_ensures;

    let m = s.to_multiset();
    let s1 = s.update(i, s[j]);
    if i == j {
        assert(s.update(i, s[j]) =~= s);
    } else {
        assert(s1[j] == s[j]);
        let m1 = m.insert(s[j]).remove(s[i]);
        assert(s1.to_multiset() == m1);
        assert(s1.update(j, s[i]).to_multiset() == m1.insert(s[i]).remove(s[j]));
        assert(s.contains(s[i]));
        assert(m.count(s[i]) > 0);
        assert(m1.insert(s[i]).remove(s[j]) =~= m);
    }
}

/// How many leading positions a partial shuffle of `len` items randomises:
/// `max`, but never more than `len - 1` (the last position of a full shuffle
/// is fixed by the others).
pub open spec fn shuffled_prefix(len: nat, max: nat) -> nat {
    if len == 0 {
        0
    } else if max < len - 1 {
        max
    } else {
        (len - 1) as nat
    }
}

/// `s` after swapping, for each position `i` of `draws` in turn, the items
/// at `i` and at `draws[i]`.
pub open spec fn swapped_prefix<T>(s: Seq<T>, draws: Seq<usize>) -> Seq<T>
    decreases draws.len(),
{
    if draws.len() == 0 {
        s
    } else {
        let before = swapped_prefix(s, draws.drop_last());
        let i = draws.len() - 1;
        let j = draws.last() as int;
        before.update(i, before[j]).update(j, before[i])
    }
}

/// Draws fit for a Fisher–Yates pass over `len` items: the `i`-th lies in
/// `i..len`.
pub open spec fn valid_draws(draws: Seq<usize>, len: nat) -> bool {
    &&& draws.len() <= len
    &&& forall|i: int| 0 <= i < draws.len() ==> i <= #[trigger] draws[i] < len
}

/// The Fisher–Yates swaps for given draws: position `i` takes the item at
/// `draws[i]`, for each `i` in turn.
pub fn shuffle_with<T>(array: &mut Vec<T>, draws: &Vec<usize>)
    requires
        valid_draws(draws@, old(array)@.len()),
    ensures
        final(array)@ == swapped_prefix(old(array)@, draws@),
        final(array)@.len() == old(array)@.len(),
        final(array)@.to_multiset() == old(array)@.to_multiset(),
{
    let mut i: usize = 0;
    while i < draws.len()
        invariant
            i <= draws@.len(),
            valid_draws(draws@, old(array)@.len()),
            array@.len() == old(array)@.len(),
            array@ == swapped_prefix(old(array)@, draws@.subrange(0, i as int)),
            array@.to_multiset() == old(array)@.to_multiset(),
        decreases draws@.len() - i,
    {
        let j = draws[i];
        proof {
            assert(draws@.subrange(0, i + 1).drop_last() =~= draws@.subrange(0, i as int));
            lemma_swap_keeps_items(array@, i as int, j as int);
        }
        swap_items(array, i, j);
        i = i + 1;
    }
    proof {
        assert(draws@.subrange(0, draws@.len() as int) =~= draws@);
    }
}

/// Fisher–Yates shuffle of the first `max` positions: each of them in turn
/// takes an item drawn from itself or any later position (see
/// [`shuffle_with`]). The items are kept, only their order changes.
pub fn shuffle<T>(rng: &mut Rng, array: &mut Vec<T>, max: usize)
    ensures
        exists|draws: Seq<usize>|
            draws.len() == shuffled_prefix(old(array)@.len(), max as nat) && valid_draws(
                draws,
                old(array)@.len(),
            ) && final(array)@ == #[trigger] swapped_prefix(old(array)@, draws),
        final(array)@.len() == old(array)@.len(),
        final(array)@.to_multiset() == old(array)@.to_multiset(),
        shuffled_prefix(old(array)@.len(), max as nat) == 0 ==> final(array)@ == old(array)@,
{
    let len = array.len();
    let m: usize = if len == 0 {
        0
    } else if max < len - 1 {
        max
    } else {
        len - 1
    };
    let mut draws: Vec<usize> = Vec::new();
    let mut i: usize = 0;
    while i < m
        invariant
            m <= len,
            len == array.len(),
            i <= m,
            draws@.len() == i,
            forall|k: int| 0 <= k < i ==> k <= #[trigger] draws@[k] < len,
        decreases m - i,
    {
        let j = rng.rand_range(i as u64..len as u64) as usize;
        draws.push(j);
        i = i + 1;
    }
    shuffle_with(array, &draws);
    proof {
        if m == 0 {
            assert(draws@ =~= Seq::<usize>::empty());
        }
    }
}

/// One item of a non-empty array, drawn uniformly.
pub fn choose_item<'a, T>(rng: &mut Rng, array: &'a Vec<T>) -> (r: &'a T)
    requires
        array.len() > 0,
    ensures
        exists|i: int| 0 <= i < array.len() && *r == array@[i],
{
    let index = rng.rand_range(0..array.len() as u64) as usize;
    &array[index]
}

} // verus!
