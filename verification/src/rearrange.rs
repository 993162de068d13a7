//! Sequences that hold the same items, each as often in one as in the other:
//! the step by which a statement about one is carried over to the other.

use vstd::prelude::*;
use vstd::seq_lib::{to_multiset_contains, to_multiset_len, to_multiset_remove};

verus! {

/// Of two sequences that hold the same items equally often, the last item of
/// the first stands somewhere in the second, and with it taken out of both,
/// what is left still holds the same items equally often.
pub proof fn lemma_take_out_last<A>(a: Seq<A>, b: Seq<A>) -> (i: int)
    requires
        a.to_multiset() == b.to_multiset(),
        a.len() > 0,
    ensures
        a.len() == b.len(),
        0 <= i < b.len(),
        b[i] == a.last(),
        a.drop_last().to_multiset() == b.remove(i).to_multiset(),
{
    let last = a.len() - 1;
    to_multiset_len(a);
    to_multiset_len(b);
    to_multiset_contains(a, a[last]);
    to_multiset_contains(b, a[last]);
    let i = choose|i: int| 0 <= i < b.len() && b[i] == a[last];
    to_multiset_remove(a, last);
    to_multiset_remove(b, i);
    assert(a.remove(last) =~= a.drop_last());
    i
}

/// Sequences that hold the same items equally often and of which one is empty
/// are both empty.
pub proof fn lemma_both_empty<A>(a: Seq<A>, b: Seq<A>)
    requires
        a.to_multiset() == b.to_multiset(),
        a.len() == 0,
    ensures
        a == b,
{
    to_multiset_len(a);
    to_multiset_len(b);
    assert(a =~= b);
}

} // verus!
