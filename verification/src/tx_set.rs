//! Hash sets of transaction ids and dense location ids, kept in [`ahash::AHashSet`].

use ahash::AHashSet;
use vstd::prelude::*;

verus! {

#[verifier::external_type_specification]
#[verifier::external_body]
#[verifier::reject_recursive_types(T)]
#[verifier::reject_recursive_types(S)]
pub struct ExAHashSet<T, S>(AHashSet<T, S>);

#[verifier::external_type_specification]
#[verifier::external_body]
pub struct ExAHashRandomState(ahash::RandomState);

/// The ids that a set holds.
pub uninterp spec fn members(set: AHashSet<usize>) -> Set<usize>;

/// `AHashSet::new`: the set holds nothing.
#[verifier::external_body]
pub(crate) fn set_new() -> (set: AHashSet<usize>)
    ensures
        members(set) == Set::<usize>::empty(),
{
    AHashSet::new()
}

/// `HashSet::contains`, reached through `AHashSet`'s `Deref`: whether the id is held.
#[verifier::external_body]
pub(crate) fn set_contains(set: &AHashSet<usize>, id: usize) -> (found: bool)
    ensures
        found == members(*set).contains(id),
{
    set.contains(&id)
}

/// `HashSet::insert`, reached through `AHashSet`'s `DerefMut`: adds the id and tells whether it
/// was new.
#[verifier::external_body]
pub(crate) fn set_insert(set: &mut AHashSet<usize>, id: usize) -> (inserted: bool)
    ensures
        inserted == !members(*old(set)).contains(id),
        members(*final(set)) == members(*old(set)).insert(id),
{
    set.insert(id)
}

/// `HashSet::remove`, reached through `AHashSet`'s `DerefMut`: drops the id and tells whether it
/// was held.
#[verifier::external_body]
pub(crate) fn set_remove(set: &mut AHashSet<usize>, id: usize) -> (removed: bool)
    ensures
        removed == members(*old(set)).contains(id),
        members(*final(set)) == members(*old(set)).remove(id),
{
    set.remove(&id)
}

/// `HashSet::iter`, reached through `AHashSet`'s `Deref`: lists every held id exactly once, in no
/// particular order.
#[verifier::external_body]
pub(crate) fn set_items(set: &AHashSet<usize>) -> (items: Vec<usize>)
    ensures
        items@.no_duplicates(),
        forall|id: usize| #[trigger] items@.contains(id) <==> members(*set).contains(id),
{
    set.iter().copied().collect()
}

} // verus!
