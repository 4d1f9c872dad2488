use vstd::prelude::*;

verus! {

/// Identity of an entity in the catalog. Ids are issued in increasing order
/// and never reused.
#[derive(Debug, Clone, Copy, PartialEq, Eq, Structural, PartialOrd, Ord, Hash)]
pub struct MediaId(pub usize);

/// Identity of a user-defined collection.
#[derive(Debug, Clone, Copy, PartialEq, Eq, Structural, PartialOrd, Ord, Hash)]
pub struct CollectionId(pub usize);

impl Default for CollectionId {
    fn default() -> (r: CollectionId)
        ensures
            r.0 == 1,
    {
        CollectionId(1)
    }
}

} // verus!
