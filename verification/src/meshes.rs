//! Mesh redistribution: from pending geometry to the tick's mesh index.
//!
//! A map that changed hands out its pending geometry once. The host uploads
//! each batch and records the resulting mesh, under the layer and tileset of
//! the batch, in an index that lives for one tick.

use crate::handle::{MapHandle, MeshHandle};
use crate::map::{GeometryBatch, TiledMap};
use std::collections::HashMap;
use vstd::prelude::*;

verus! {

broadcast use vstd::std_specs::hash::group_hash_axioms;

/// An uploaded mesh and the layer and tileset that it belongs to.
#[derive(Clone, Copy, Debug, PartialEq, Eq, Structural)]
pub struct MeshEntry {
    pub layer_id: u32,
    pub tileset_guid: u32,
    pub mesh: MeshHandle,
}

/// The meshes uploaded in this tick, by map, in the order of their upload.
pub struct MeshIndex {
    lists: HashMap<u128, Vec<MeshEntry>>,
}

impl View for MeshIndex {
    type V = Map<u128, Seq<MeshEntry>>;

    closed spec fn view(&self) -> Map<u128, Seq<MeshEntry>> {
        self.lists@.map_values(|list: Vec<MeshEntry>| list@)
    }
}

/// The entries that an index holds for a map: none where it has no list.
pub open spec fn entries_of(index: Map<u128, Seq<MeshEntry>>, id: u128) -> Seq<MeshEntry> {
    if index.contains_key(id) {
        index[id]
    } else {
        Seq::empty()
    }
}

/// The index entry of an upload: the mesh, under the layer and the tileset
/// of the batch that was uploaded.
pub open spec fn uploaded_entry(upload: (GeometryBatch, MeshHandle)) -> MeshEntry {
    MeshEntry { layer_id: upload.0.layer_id, tileset_guid: upload.0.tileset_guid, mesh: upload.1 }
}

/// The index entries of a sequence of uploads, in their order.
pub open spec fn uploaded_entries(uploads: Seq<(GeometryBatch, MeshHandle)>) -> Seq<MeshEntry> {
    uploads.map_values(|upload: (GeometryBatch, MeshHandle)| uploaded_entry(upload))
}

/// The index after the uploads of a map were recorded.
pub open spec fn recorded(
    index: Map<u128, Seq<MeshEntry>>,
    id: u128,
    uploads: Seq<(GeometryBatch, MeshHandle)>,
) -> Map<u128, Seq<MeshEntry>> {
    if uploads.len() == 0 {
        index
    } else {
        index.insert(id, entries_of(index, id) + uploaded_entries(uploads))
    }
}

impl MeshIndex {
    /// An index without entries, for a new tick.
    pub fn new() -> (index: MeshIndex)
        ensures
            index@ == Map::<u128, Seq<MeshEntry>>::empty(),
    {
        let index = MeshIndex { lists: HashMap::new() };
        assert(index@ =~= Map::<u128, Seq<MeshEntry>>::empty());
        index
    }

    /// Records a mesh for a map, behind those recorded for it before.
    pub fn push(&mut self, map: MapHandle, entry: MeshEntry)
        ensures
            final(self)@ == old(self)@.insert(map.id, entries_of(old(self)@, map.id).push(entry)),
    {
        let mut list: Vec<MeshEntry> = match self.lists.remove(&map.id) {
            Some(list) => list,
            None => Vec::new(),
        };
        list.push(entry);
        self.lists.insert(map.id, list);
        assert(self@ =~= old(self)@.insert(map.id, entries_of(old(self)@, map.id).push(entry)));
    }

    /// Records the meshes that the batches of a map were uploaded as, each
    /// under the layer and the tileset of its batch, in the order given and
    /// behind those recorded for the map before. Without an upload the map
    /// gets no list.
    pub fn record_uploads(&mut self, map: MapHandle, uploads: &Vec<(GeometryBatch, MeshHandle)>)
        ensures
            final(self)@ == recorded(old(self)@, map.id, uploads@),
    {
        let mut i: usize = 0;
        while i < uploads.len()
            invariant
                i <= uploads.len(),
                self@ == recorded(old(self)@, map.id, uploads@.take(i as int)),
            decreases uploads.len() - i,
        {
            let (batch, mesh): (GeometryBatch, MeshHandle) = uploads[i];
            proof {
                let before = uploads@.take(i as int);
                let after = uploads@.take(i + 1);
                assert(after =~= before.push(uploads@[i as int]));
                assert(uploaded_entries(after) =~= uploaded_entries(before).push(
                    uploaded_entry(uploads@[i as int]),
                ));
                assert(entries_of(recorded(old(self)@, map.id, before), map.id).push(
                    uploaded_entry(uploads@[i as int]),
                ) =~= entries_of(old(self)@, map.id) + uploaded_entries(after));
            }
            self.push(
                map,
                MeshEntry { layer_id: batch.layer_id, tileset_guid: batch.tileset_guid, mesh },
            );
            assert(self@ =~= recorded(old(self)@, map.id, uploads@.take(i + 1)));
            i += 1;
        }
        proof {
            assert(uploads@.take(i as int) == uploads@);
        }
    }

    /// Whether a mesh was recorded for the map in this tick.
    pub fn contains(&self, map: MapHandle) -> (found: bool)
        ensures
            found == self@.contains_key(map.id),
    {
        self.lists.contains_key(&map.id)
    }

    /// The meshes recorded for the map in this tick, if there are any.
    pub fn get(&self, map: MapHandle) -> (list: Option<&Vec<MeshEntry>>)
        ensures
            match list {
                Some(entries) => self@.contains_key(map.id) && entries@ == self@[map.id],
                None => !self@.contains_key(map.id),
            },
    {
        self.lists.get(&map.id)
    }
}

/// Whether `after` is `before` with its pending geometry handed out as
/// `batches`: all of it, in order, and nothing else changed.
pub open spec fn drained(before: TiledMap, after: TiledMap, batches: Seq<GeometryBatch>) -> bool {
    &&& batches == before.meshes@
    &&& after.meshes@ == Seq::<GeometryBatch>::empty()
    &&& after.map == before.map
    &&& after.layers == before.layers
    &&& after.tile_size == before.tile_size
    &&& after.image_folder == before.image_folder
}

impl TiledMap {
    /// Hands out the pending geometry of the map, all at once and in order,
    /// and leaves the map with none.
    pub fn drain_meshes(&mut self) -> (batches: Vec<GeometryBatch>)
        ensures
            drained(*old(self), *final(self), batches@),
    {
        let mut batches: Vec<GeometryBatch> = Vec::new();
        batches.append(&mut self.meshes);
        batches
    }
}

/// Geometry is handed out once: a second drain, with nothing added in
/// between, hands out no batch, so that nothing is uploaded a second time
/// and the index stays as it was.
pub proof fn lemma_drain_once(
    start: TiledMap,
    once: TiledMap,
    twice: TiledMap,
    first: Seq<GeometryBatch>,
    second: Seq<GeometryBatch>,
    index: Map<u128, Seq<MeshEntry>>,
    id: u128,
    uploads: Seq<(GeometryBatch, MeshHandle)>,
)
    requires
        drained(start, once, first),
        drained(once, twice, second),
        uploads.len() == second.len(),
    ensures
        first == start.meshes@,
        second == Seq::<GeometryBatch>::empty(),
        twice.meshes@ == Seq::<GeometryBatch>::empty(),
        recorded(index, id, uploads) == index,
{
}

} // verus!
