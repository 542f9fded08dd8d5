use vstd::prelude::*;
use slab::Slab;
use crate::network::Point;

verus! {

/// `slab::Slab`, taken as it is: nothing is known of what is inside one but
/// what the functions below say.
#[verifier::external_type_specification]
#[verifier::external_body]
#[verifier::reject_recursive_types(T)]
pub struct ExSlab<T>(Slab<T>);

/// The points that a slab holds, by the key under which each was inserted.
pub uninterp spec fn slab_points(slab: Slab<Point>) -> Map<usize, Point>;

/// Whether `keys` lists exactly the members of `live`, in ascending order.
pub open spec fn lists_ascending(keys: Seq<usize>, live: Set<usize>) -> bool {
    &&& forall|i: int, j: int| 0 <= i < j < keys.len() ==> keys[i] < keys[j]
    &&& forall|i: int| 0 <= i < keys.len() ==> live.contains(#[trigger] keys[i])
    &&& forall|key: usize| live.contains(key) ==> keys.contains(key)
}

/// `Slab::new`: the slab it returns holds nothing.
#[verifier::external_body]
pub(crate) fn slab_new() -> (made: Slab<Point>)
    ensures
        slab_points(made) == (Map::<usize, Point>::empty()),
{
    Slab::new()
}

/// `Slab::insert`: stores the point under a key that held nothing before and
/// returns that key; every other key keeps what it held. Which vacant key is
/// taken is left open. (The call aborts only when the backing vector can no
/// longer grow.)
#[verifier::external_body]
pub(crate) fn slab_insert(slab: &mut Slab<Point>, point: Point) -> (key: usize)
    ensures
        !slab_points(*old(slab)).dom().contains(key),
        slab_points(*final(slab)) == slab_points(*old(slab)).insert(key, point),
{
    slab.insert(point)
}

/// `Slab::get`: the point stored under `key`, or nothing where the key is
/// vacant or beyond the slab.
#[verifier::external_body]
pub(crate) fn slab_get(slab: &Slab<Point>, key: usize) -> (found: Option<Point>)
    ensures
        found == (if slab_points(*slab).dom().contains(key) {
            Some(slab_points(*slab)[key])
        } else {
            None
        }),
{
    slab.get(key).copied()
}

/// `IndexMut::index_mut` of `Slab`, assigned through: the point under an
/// occupied key is replaced, nothing else changes. The call panics on a
/// vacant key, which the precondition leaves out.
#[verifier::external_body]
pub(crate) fn slab_set(slab: &mut Slab<Point>, key: usize, point: Point)
    requires
        slab_points(*old(slab)).dom().contains(key),
    ensures
        slab_points(*final(slab)) == slab_points(*old(slab)).insert(key, point),
{
    slab[key] = point;
}

/// `Slab::try_remove`: an occupied key is vacated and its point returned;
/// on a vacant key nothing happens and nothing is returned. All other keys
/// keep what they held.
#[verifier::external_body]
pub(crate) fn slab_remove(slab: &mut Slab<Point>, key: usize) -> (taken: Option<Point>)
    ensures
        slab_points(*final(slab)) == slab_points(*old(slab)).remove(key),
        taken == (if slab_points(*old(slab)).dom().contains(key) {
            Some(slab_points(*old(slab))[key])
        } else {
            None
        }),
{
    slab.try_remove(key)
}

/// `Slab::iter`, keeping the key of each item: the iterator walks the slots
/// by rising index and yields the occupied ones, so the keys come out
/// ascending and are exactly the occupied keys.
#[verifier::external_body]
pub(crate) fn slab_keys(slab: &Slab<Point>) -> (keys: Vec<usize>)
    ensures
        lists_ascending(keys@, slab_points(*slab).dom()),
{
    slab.iter().map(|(key, _)| key).collect()
}

/// `Clone::clone` of `Slab`: the copy holds the same points under the same keys.
#[verifier::external_body]
pub(crate) fn slab_clone(slab: &Slab<Point>) -> (copy: Slab<Point>)
    ensures
        slab_points(copy) == slab_points(*slab),
{
    slab.clone()
}

} // verus!
