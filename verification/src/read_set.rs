//! Read sets of speculative executions, kept in [`ahash::AHashMap`].

use crate::model::{LocationId, ReadVersion};
use ahash::AHashMap;
use vstd::prelude::*;

verus! {

#[verifier::external_type_specification]
#[verifier::external_body]
#[verifier::reject_recursive_types(K)]
#[verifier::reject_recursive_types(V)]
#[verifier::reject_recursive_types(S)]
pub struct ExAHashMap<K, V, S>(AHashMap<K, V, S>);

/// The locations that an execution read, each with the version seen.
pub type ReadSet = AHashMap<LocationId, ReadVersion>;

/// The version that a read set records for each location.
pub uninterp spec fn versions(reads: AHashMap<LocationId, ReadVersion>) -> Map<LocationId, ReadVersion>;

/// Nothing was read.
pub open spec fn no_reads() -> Map<LocationId, ReadVersion> {
    Map::empty()
}

/// `AHashMap::new`: nothing was read.
#[verifier::external_body]
pub(crate) fn reads_new() -> (reads: ReadSet)
    ensures
        versions(reads) == no_reads(),
{
    AHashMap::new()
}

/// `HashMap::iter`, reached through `AHashMap`'s `Deref`: lists every location exactly once with
/// its version, in no particular order.
#[verifier::external_body]
pub(crate) fn reads_items(reads: &ReadSet) -> (items: Vec<(LocationId, ReadVersion)>)
    ensures
        items@.no_duplicates(),
        forall|i: int|
            0 <= i < items@.len() ==> versions(*reads).contains_pair(
                (#[trigger] items@[i]).0,
                items@[i].1,
            ),
        forall|location: LocationId| #[trigger]
            versions(*reads).contains_key(location) ==> items@.contains(
                (location, versions(*reads)[location]),
            ),
{
    reads.iter().map(|(location, version)| (*location, *version)).collect()
}

} // verus!
