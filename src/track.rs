use vstd::prelude::*;

verus! {

/// A track's identity: the 128-bit value of its UUID.
pub type TrackId = u128;

/// Insertion-ordered hash map with the Fx hasher.
pub type FxIndexMap<K, V> = indexmap::IndexMap<K, V, rustc_hash::FxBuildHasher>;

/// One track of the library snapshot.
#[derive(Debug, Clone)]
pub struct Track {
    pub id: TrackId,
    pub artist: String,
    pub title: String,
    pub filepath: String,
}

/// indexmap::IndexMap, opaque: what it holds is read through the wrappers below.
#[verifier::external_type_specification]
#[verifier::external_body]
#[verifier::reject_recursive_types(K)]
#[verifier::reject_recursive_types(V)]
#[verifier::reject_recursive_types(S)]
pub struct ExIndexMap<K, V, S>(indexmap::IndexMap<K, V, S>);

/// rustc_hash::FxBuildHasher, opaque: only carried as the map's hasher.
#[verifier::external_type_specification]
#[verifier::external_body]
pub struct ExFxBuildHasher(rustc_hash::FxBuildHasher);

/// The entries of a library snapshot, in insertion order.
pub uninterp spec fn snapshot_entries(m: FxIndexMap<TrackId, Track>) -> Seq<(TrackId, Track)>;

/// The track ids of a library snapshot, in library order.
pub open spec fn snapshot_keys(m: FxIndexMap<TrackId, Track>) -> Seq<TrackId> {
    snapshot_entries(m).map_values(|e: (TrackId, Track)| e.0)
}

/// Relies on IndexMap::len: the number of entries of the map.
#[verifier::external_body]
pub(crate) fn snapshot_len(m: &FxIndexMap<TrackId, Track>) -> (r: usize)
    ensures
        r == snapshot_entries(*m).len(),
{
    m.len()
}

/// Relies on IndexMap::get_index: the entry at a position of insertion order,
/// or nothing past the end.
#[verifier::external_body]
pub(crate) fn snapshot_key_at(m: &FxIndexMap<TrackId, Track>, i: usize) -> (r: Option<TrackId>)
    ensures
        i < snapshot_entries(*m).len() ==> r == Some(snapshot_entries(*m)[i as int].0),
        i >= snapshot_entries(*m).len() ==> r is None,
{
    m.get_index(i).map(|(k, _)| *k)
}

/// Relies on IndexMap::get: the value stored under a key, if the key is present.
#[verifier::external_body]
pub(crate) fn snapshot_get(m: &FxIndexMap<TrackId, Track>, id: TrackId) -> (r: Option<&Track>)
    ensures
        match r {
            Some(t) => exists|i: int|
                0 <= i < snapshot_entries(*m).len() && #[trigger] snapshot_entries(*m)[i].0 == id
                    && snapshot_entries(*m)[i].1 == *t,
            None => forall|i: int|
                0 <= i < snapshot_entries(*m).len() ==> #[trigger] snapshot_entries(*m)[i].0 != id,
        },
{
    m.get(&id)
}

} // verus!
