//! Two elements of one sequence, both for writing at once.

use vstd::prelude::*;

verus! {

/// Elements `a` and `b` of `items`, both for writing. The sequence is split
/// at the larger index, so that each reference lies in a part of its own.
/// What is written through one reaches that element alone.
pub fn get_two_mut<T>(items: &mut Vec<T>, a: usize, b: usize) -> (pair: (&mut T, &mut T))
    requires
        a < old(items)@.len(),
        b < old(items)@.len(),
        a != b,
    ensures
        *pair.0 == old(items)@[a as int],
        *pair.1 == old(items)@[b as int],
        final(items)@ == old(items)@.update(a as int, *final(pair.0)).update(
            b as int,
            *final(pair.1),
        ),
{
    let slice = items.as_mut_slice();
    if a < b {
        let (low, high) = slice.split_at_mut(b);
        (&mut low[a], &mut high[0])
    } else {
        let (low, high) = slice.split_at_mut(a);
        (&mut high[0], &mut low[b])
    }
}

/// Writing through the two references of `get_two_mut` changes two distinct
/// elements: each of the two ends as what was written through its own
/// reference, and every other element stays, whichever index is larger.
pub proof fn lemma_two_mut_disjoint<T>(before: Seq<T>, a: int, b: int, x: T, y: T)
    requires
        0 <= a < before.len(),
        0 <= b < before.len(),
        a != b,
    ensures
        before.update(a, x).update(b, y) == before.update(b, y).update(a, x),
        before.update(a, x).update(b, y)[a] == x,
        before.update(a, x).update(b, y)[b] == y,
        forall|i: int|
            0 <= i < before.len() && i != a && i != b ==> before.update(a, x).update(b, y)[i]
                == before[i],
{
    assert(before.update(a, x).update(b, y) =~= before.update(b, y).update(a, x));
}

} // verus!
