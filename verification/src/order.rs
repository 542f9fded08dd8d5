use vstd::prelude::*;
use vstd::seq_lib::{to_multiset_contains, to_multiset_len};
use rand::seq::SliceRandom;

verus! {

/// Whether `order` visits each of the indices below `count` exactly once.
pub open spec fn is_permutation(order: Seq<usize>, count: nat) -> bool {
    &&& order.len() == count
    &&& forall|i: int| 0 <= i < order.len() ==> (#[trigger] order[i]) < count
    &&& order.no_duplicates()
}

/// `SliceRandom::shuffle` with the generator of `rand::thread_rng`: the items
/// are swapped among themselves, so the vector holds the same items as before,
/// each as often as before. Nothing is said of their order, which is random.
/// (The generator aborts if the system gives it no seed.)
#[verifier::external_body]
fn shuffle(order: &mut Vec<usize>)
    ensures
        final(order)@.to_multiset() == old(order)@.to_multiset(),
{
    order.shuffle(&mut rand::thread_rng());
}

/// The indices below `count`, ascending.
pub fn ascending_order(count: usize) -> (order: Vec<usize>)
    ensures
        order@.len() == count,
        forall|i: int| 0 <= i < count ==> order@[i] == i,
        is_permutation(order@, count as nat),
{
    let mut order: Vec<usize> = Vec::new();
    let mut i: usize = 0;
    while i < count
        invariant
            i <= count,
            order@.len() == i,
            forall|j: int| 0 <= j < i ==> order@[j] == j,
        decreases count - i,
    {
        order.push(i);
        i += 1;
    }
    order
}

/// The indices below `count` in a freshly drawn random order.
pub fn random_order(count: usize) -> (order: Vec<usize>)
    ensures
        is_permutation(order@, count as nat),
{
    let mut order = ascending_order(count);
    let ghost sorted = order@;
    shuffle(&mut order);
    proof {
        let drawn = order@;
        to_multiset_len(sorted);
        to_multiset_len(drawn);
        sorted.lemma_multiset_has_no_duplicates();
        drawn.lemma_multiset_has_no_duplicates_conv();
        assert forall|i: int| 0 <= i < drawn.len() implies (#[trigger] drawn[i]) < count by {
            let x = drawn[i];
            assert(drawn.contains(x));
            to_multiset_contains(drawn, x);
            to_multiset_contains(sorted, x);
            let j = choose|j: int| 0 <= j < sorted.len() && sorted[j] == x;
            assert(sorted[j] == j);
        }
    }
    order
}

} // verus!
