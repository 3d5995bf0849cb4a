//! The registry of named indexes: an evmap, read without locks by any number
//! of readers and written by one writer, whose writes become visible to
//! readers at once, on refresh.
use crate::idmapping::MappingIndex;
use std::collections::hash_map::RandomState;
use std::hash::{BuildHasher, Hash};
use std::sync::Arc;
use vstd::prelude::*;

verus! {

#[verifier::external_type_specification]
#[verifier::external_body]
#[verifier::reject_recursive_types(K)]
#[verifier::reject_recursive_types(V)]
#[verifier::reject_recursive_types(M)]
#[verifier::reject_recursive_types(S)]
pub struct ExReadHandle<K, V, M, S>(evmap::ReadHandle<K, V, M, S>) where K: Eq + Hash, S: BuildHasher;

/// Relies on `ReadHandle::clone`: another reader of the same map. Nothing is
/// stated of it.
pub assume_specification<K, V, M, S>[ <evmap::ReadHandle<K, V, M, S> as Clone>::clone ](
    handle: &evmap::ReadHandle<K, V, M, S>,
) -> evmap::ReadHandle<K, V, M, S>
    where
        K: Eq + Hash,
        S: BuildHasher,
;

/// The readers' side of the registry.
pub type KnnMapRead = evmap::ReadHandle<String, Arc<MappingIndex>, (), RandomState>;

/// The writer's side of the registry. Verus cannot declare evmap's
/// `WriteHandle` (its `ShallowCopy` bound), so the handle is held here, and
/// only the functions below touch it.
#[verifier::external_body]
pub struct KnnMapWrite {
    handle: evmap::WriteHandle<String, Arc<MappingIndex>, (), RandomState>,
}

/// What the registry holds of an index: its dimension, and its external ids
/// and vectors by position.
pub type Snapshot = (int, Seq<i64>, Seq<Seq<u32>>);

pub open spec fn snapshot_of(index: MappingIndex) -> Snapshot {
    (index.dim(), index.ids(), index.items())
}

/// What readers see through the writer's map: each name, with the index
/// published under it.
pub uninterp spec fn published(w: KnnMapWrite) -> Map<Seq<char>, Snapshot>;

/// What readers will see after the writer's next refresh.
pub uninterp spec fn staged(w: KnnMapWrite) -> Map<Seq<char>, Snapshot>;

/// A map with no entry.
pub open spec fn no_entries() -> Map<Seq<char>, Snapshot> {
    Map::empty()
}

/// Readers see every write made so far.
pub open spec fn refreshed(w: KnnMapWrite) -> bool {
    staged(w) == published(w)
}

/// Relies on `evmap::new`: the writer's handle of a new, empty map.
#[verifier::external_body]
pub(crate) fn new_registry() -> (w: KnnMapWrite)
    ensures
        published(w) == no_entries(),
        staged(w) == no_entries(),
{
    KnnMapWrite { handle: evmap::new().1 }
}

/// Relies on `ReadHandle::clone`, reached through the writer's `Deref`: a
/// new reader of the writer's map.
#[verifier::external_body]
pub(crate) fn reader_of(w: &KnnMapWrite) -> (r: KnnMapRead) {
    (*w.handle).clone()
}

/// Relies on `WriteHandle::update`: the value set of `name` is to become
/// `index` alone; readers see nothing of it before the next refresh.
#[verifier::external_body]
pub(crate) fn stage_replace(w: &mut KnnMapWrite, name: String, index: Arc<MappingIndex>)
    ensures
        staged(*final(w)) == staged(*old(w)).insert(name@, snapshot_of(*index)),
        published(*final(w)) == published(*old(w)),
{
    w.handle.update(name, index);
}

/// Relies on `WriteHandle::refresh`: every staged write becomes visible to
/// readers.
#[verifier::external_body]
pub(crate) fn refresh(w: &mut KnnMapWrite)
    ensures
        published(*final(w)) == staged(*old(w)),
        staged(*final(w)) == staged(*old(w)),
{
    w.handle.refresh();
}

/// Relies on `ReadHandle::get_and`: the index published under `name` at the
/// moment of the read, if there is one. What a reader sees depends on when
/// the writer last refreshed, so nothing is stated of the result.
#[verifier::external_body]
pub(crate) fn lookup(r: &KnnMapRead, name: &str) -> (idx: Option<Arc<MappingIndex>>) {
    r.get_and(name, |values| values.first().cloned()).flatten()
}

} // verus!
