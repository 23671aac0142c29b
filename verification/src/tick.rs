//! How the steps of a tick fit together.
//!
//! In a tick, a map that changed has its materials resolved and its pending
//! geometry uploaded and recorded; then every instance of the map gets its
//! chunks. The laws here say what the later steps can rely on once the
//! earlier ones are done, for maps that are well formed.

use crate::fixed::Vec3;
use crate::handle::{MaterialHandle, MeshHandle};
use crate::map::{GeometryBatch, Layer, TiledMap, Tileset};
use crate::materials::{lemma_plan_requests, plan_after, requested_guids, tileset_ids_unique};
use crate::meshes::{uploaded_entries, uploaded_entry};
use crate::spawn::{
    lacks_material, lemma_chunks_show_meshes, lemma_one_chunk_per_mesh, map_chunks, placed,
    shows_mesh, tilesets_distinct,
};
use vstd::prelude::*;

verus! {

/// Whether every tileset that a layer draws from is a tileset of the map.
pub open spec fn layers_use_tilesets(layers: Seq<Layer>, tilesets: Seq<Tileset>) -> bool {
    forall|i: int, j: int|
        0 <= i < layers.len() && 0 <= j < layers[i].tileset_layers@.len() ==> exists|t: int|
            0 <= t < tilesets.len() && (#[trigger] tilesets[t]).first_gid
                == (#[trigger] layers[i].tileset_layers@[j]).tileset_guid
}

/// Whether the map is well formed: its tilesets have ids of their own, its
/// layers draw from its tilesets and from none twice, and its pending
/// geometry is for layers of the map and tilesets of those layers.
pub open spec fn well_formed(map: TiledMap) -> bool {
    &&& tileset_ids_unique(map.map.tilesets@)
    &&& layers_use_tilesets(map.layers@, map.map.tilesets@)
    &&& tilesets_distinct(map.layers@)
    &&& forall|k: int|
        0 <= k < map.meshes@.len() ==> placed(
            (#[trigger] map.meshes@[k]).layer_id,
            map.meshes@[k].tileset_guid,
            map.layers@,
        )
}

/// Materials come before chunks: once the materials that a scan of the
/// map's tilesets asked for are in the cache, no tileset that a layer draws
/// from lacks a material.
pub proof fn lemma_resolved_lacks_nothing(
    map: TiledMap,
    known: Set<u32>,
    materials: Map<u32, MaterialHandle>,
)
    requires
        layers_use_tilesets(map.layers@, map.map.tilesets@),
        plan_after(known, map.image_folder@, map.map.tilesets@) is Ok,
        materials.dom() == known.union(
            requested_guids(
                plan_after(known, map.image_folder@, map.map.tilesets@)->Ok_0.requests,
            ),
        ),
    ensures
        forall|i: int, j: int| !lacks_material(map.layers@, materials, i, j),
{
    lemma_plan_requests(known, map.image_folder@, map.map.tilesets@);
    let tilesets = map.map.tilesets@;
    assert forall|i: int, j: int| !lacks_material(map.layers@, materials, i, j) by {
        if 0 <= i < map.layers@.len() && 0 <= j < map.layers@[i].tileset_layers@.len() {
            let t = choose|t: int|
                0 <= t < tilesets.len() && (#[trigger] tilesets[t]).first_gid
                    == map.layers@[i].tileset_layers@[j].tileset_guid;
            assert(materials.dom().contains(tilesets[t].first_gid));
        }
    }
}

/// One chunk for each batch: where all pending geometry of a well-formed
/// map was uploaded and recorded, in order, an instance gets as many chunks
/// as the map had batches, and each chunk shows one of the uploaded meshes
/// in the layer of its batch.
pub proof fn lemma_one_chunk_per_batch(
    map: TiledMap,
    uploads: Seq<(GeometryBatch, MeshHandle)>,
    materials: Map<u32, MaterialHandle>,
    place: Vec3,
)
    requires
        well_formed(map),
        uploads.len() == map.meshes@.len(),
        forall|k: int| 0 <= k < uploads.len() ==> (#[trigger] uploads[k]).0 == map.meshes@[k],
    ensures
        map_chunks(uploaded_entries(uploads), map.layers@, materials, place).len()
            == map.meshes@.len(),
        forall|n: int|
            0 <= n < map_chunks(uploaded_entries(uploads), map.layers@, materials, place).len()
                ==> shows_mesh(
                #[trigger] map_chunks(uploaded_entries(uploads), map.layers@, materials, place)[n],
                uploaded_entries(uploads),
                materials,
                place,
            ),
{
    let entries = uploaded_entries(uploads);
    assert forall|k: int| 0 <= k < entries.len() implies placed(
        (#[trigger] entries[k]).layer_id,
        entries[k].tileset_guid,
        map.layers@,
    ) by {
        assert(entries[k] == uploaded_entry(uploads[k]));
        assert(uploads[k].0 == map.meshes@[k]);
    }
    lemma_one_chunk_per_mesh(entries, map.layers@, materials, place);
    lemma_chunks_show_meshes(entries, map.layers@, materials, place);
}

} // verus!
