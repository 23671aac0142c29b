//! Entity synchronisation: the chunk entities to spawn for a map instance.
//!
//! An instance whose map got new meshes in this tick gets one entity for
//! each of them: layer by layer, within a layer tileset by tileset, within a
//! tileset in the order of the uploads. Entities spawned earlier are left
//! alone.

use crate::error::SyncError;
use crate::fixed::Vec3;
use crate::handle::{MaterialHandle, MeshHandle};
use crate::map::{Layer, MapInfo, Orientation, TiledMap, TilesetLayer};
use crate::materials::TiledMapComponents;
use crate::meshes::{entries_of, MeshEntry, MeshIndex};
use crate::projection::{can_center, center_spec, supported};
use vstd::prelude::*;

verus! {

broadcast use vstd::std_specs::hash::group_hash_axioms;

/// Marks an entity as a chunk of a tile map, and tells its layer.
#[derive(Clone, Copy, Debug, PartialEq, Eq, Structural)]
pub struct TileMapChunk {
    pub layer_id: u32,
}

/// What the host needs to spawn one chunk.
#[derive(Clone, Copy, Debug, PartialEq, Eq, Structural)]
pub struct ChunkComponents {
    pub chunk: TileMapChunk,
    pub material: MaterialHandle,
    pub mesh: MeshHandle,
    /// Where the chunk is placed.
    pub transform: Vec3,
}

impl Default for TileMapChunk {
    fn default() -> (c: TileMapChunk)
        ensures
            c.layer_id == 0,
    {
        TileMapChunk { layer_id: 0 }
    }
}

impl Default for ChunkComponents {
    fn default() -> (c: ChunkComponents)
        ensures
            c.chunk.layer_id == 0,
            c.material.id == crate::handle::DEFAULT_HANDLE_ID,
            c.mesh.id == crate::handle::DEFAULT_HANDLE_ID,
            c.transform == (Vec3 { x: 0, y: 0, z: 0 }),
    {
        ChunkComponents {
            chunk: TileMapChunk::default(),
            material: MaterialHandle::default(),
            mesh: MeshHandle::default(),
            transform: Vec3 { x: 0, y: 0, z: 0 },
        }
    }
}

/// Whether the placement of an instance fits the coordinate range: it does
/// unless the instance is centred on a map that can be projected and the
/// centred placement does not fit.
pub open spec fn placement_fits(centered: bool, origin: Vec3, info: MapInfo) -> bool {
    centered && supported(info.orientation) ==> can_center(info, origin)
}

/// Where the chunks of an instance go: the instance's origin, or, for a
/// centred instance, the origin moved so that the middle of the map lies
/// there. A map that cannot be projected cannot be centred.
pub open spec fn placement_spec(centered: bool, origin: Vec3, info: MapInfo) -> Result<
    Vec3,
    SyncError,
> {
    if !centered {
        Ok(origin)
    } else if supported(info.orientation) {
        Ok(center_spec(info, origin))
    } else {
        Err(SyncError::UnsupportedOrientation)
    }
}

/// Whether a mesh belongs to tileset `guid` in the layer of index `layer`.
pub open spec fn belongs(entry: MeshEntry, layer: int, guid: u32) -> bool {
    entry.layer_id == layer && entry.tileset_guid == guid
}

/// The chunk that shows a mesh.
pub open spec fn chunk_of(entry: MeshEntry, material: MaterialHandle, place: Vec3) -> ChunkComponents {
    ChunkComponents {
        chunk: TileMapChunk { layer_id: entry.layer_id },
        material,
        mesh: entry.mesh,
        transform: place,
    }
}

/// The chunks of one tileset in one layer: one for each mesh that belongs
/// to it, in the order of the entries.
pub open spec fn tileset_chunks(
    entries: Seq<MeshEntry>,
    layer: int,
    guid: u32,
    material: MaterialHandle,
    place: Vec3,
) -> Seq<ChunkComponents>
    decreases entries.len(),
{
    if entries.len() == 0 {
        Seq::empty()
    } else {
        let rest = tileset_chunks(entries.drop_last(), layer, guid, material, place);
        if belongs(entries.last(), layer, guid) {
            rest.push(chunk_of(entries.last(), material, place))
        } else {
            rest
        }
    }
}

/// The chunks of one layer: those of its tilesets, in their order.
pub open spec fn layer_chunks(
    entries: Seq<MeshEntry>,
    layer: int,
    tilesets: Seq<TilesetLayer>,
    materials: Map<u32, MaterialHandle>,
    place: Vec3,
) -> Seq<ChunkComponents>
    decreases tilesets.len(),
{
    if tilesets.len() == 0 {
        Seq::empty()
    } else {
        let guid = tilesets.last().tileset_guid;
        layer_chunks(entries, layer, tilesets.drop_last(), materials, place) + tileset_chunks(
            entries,
            layer,
            guid,
            materials[guid],
            place,
        )
    }
}

/// The chunks of a map: those of its layers, in their order.
pub open spec fn map_chunks(
    entries: Seq<MeshEntry>,
    layers: Seq<Layer>,
    materials: Map<u32, MaterialHandle>,
    place: Vec3,
) -> Seq<ChunkComponents>
    decreases layers.len(),
{
    if layers.len() == 0 {
        Seq::empty()
    } else {
        map_chunks(entries, layers.drop_last(), materials, place) + layer_chunks(
            entries,
            layers.len() - 1,
            layers.last().tileset_layers@,
            materials,
            place,
        )
    }
}

/// Whether tileset `j` of layer `i` is there and has no material.
pub open spec fn lacks_material(
    layers: Seq<Layer>,
    materials: Map<u32, MaterialHandle>,
    i: int,
    j: int,
) -> bool {
    &&& 0 <= i < layers.len()
    &&& 0 <= j < layers[i].tileset_layers@.len()
    &&& !materials.contains_key(layers[i].tileset_layers@[j].tileset_guid)
}

/// Whether tileset `j` of layer `i` is the first, in the order of layers
/// and of tilesets within a layer, to have no material.
pub open spec fn first_lacking(
    layers: Seq<Layer>,
    materials: Map<u32, MaterialHandle>,
    i: int,
    j: int,
) -> bool {
    &&& lacks_material(layers, materials, i, j)
    &&& forall|k: int, l: int|
        (k < i || (k == i && l < j)) ==> !#[trigger] lacks_material(layers, materials, k, l)
}

impl TiledMapComponents {
    /// Whether the placement of this instance on `map` fits the coordinate
    /// range, so that its chunks can be placed.
    pub fn can_place(&self, map: &TiledMap) -> (ok: bool)
        ensures
            ok == placement_fits(self.center.0, self.origin, map.map),
    {
        if !self.center.0 {
            return true;
        }
        match map.map.orientation {
            Orientation::Orthogonal | Orientation::Isometric => map.checked_center(
                self.origin,
            ).is_some(),
            _ => true,
        }
    }

    /// Where the chunks of this instance go on `map`: the origin, or the
    /// centred placement. Fails with `UnsupportedOrientation` where the
    /// instance is centred and the map is neither orthogonal nor isometric.
    pub fn placement(&self, map: &TiledMap) -> (place: Result<Vec3, SyncError>)
        requires
            placement_fits(self.center.0, self.origin, map.map),
        ensures
            place == placement_spec(self.center.0, self.origin, map.map),
    {
        if !self.center.0 {
            return Ok(self.origin);
        }
        match map.map.orientation {
            Orientation::Orthogonal | Orientation::Isometric => Ok(map.center(self.origin)),
            _ => Err(SyncError::UnsupportedOrientation),
        }
    }

    /// The chunk entities to spawn for this instance of `map`, given the
    /// meshes of this tick.
    ///
    /// Without a mesh for the instance's map in the index there is nothing
    /// to spawn. Otherwise every tileset of every layer must have its
    /// material in the instance's cache, and each mesh that belongs to a
    /// tileset of a layer gives one chunk with that layer, that tileset's
    /// material and the instance's placement.
    ///
    /// Fails with `UnsupportedOrientation` where the instance is centred and
    /// the map cannot be projected, else with `MissingMaterial` for the first
    /// tileset without a material. Where there are meshes for the map, the
    /// placement has to fit the coordinate range: see
    /// [`TiledMapComponents::can_place`].
    #[verifier::loop_isolation(false)]
    pub fn chunk_entities(&self, map: &TiledMap, index: &MeshIndex) -> (spawned: Result<
        Vec<ChunkComponents>,
        SyncError,
    >)
        requires
            index@.contains_key(self.map_asset.id) ==> placement_fits(
                self.center.0,
                self.origin,
                map.map,
            ),
        ensures
            !index@.contains_key(self.map_asset.id) ==> spawned is Ok && spawned->Ok_0@
                == Seq::<ChunkComponents>::empty(),
            index@.contains_key(self.map_asset.id) ==> match spawned {
                Ok(chunks) => {
                    &&& placement_spec(self.center.0, self.origin, map.map) is Ok
                    &&& forall|i: int, j: int| !lacks_material(map.layers@, self.materials@, i, j)
                    &&& chunks@ == map_chunks(
                        index@[self.map_asset.id],
                        map.layers@,
                        self.materials@,
                        placement_spec(self.center.0, self.origin, map.map)->Ok_0,
                    )
                },
                Err(SyncError::UnsupportedOrientation) => placement_spec(
                    self.center.0,
                    self.origin,
                    map.map,
                ) is Err,
                Err(SyncError::MissingMaterial { tileset_guid }) => {
                    &&& placement_spec(self.center.0, self.origin, map.map) is Ok
                    &&& exists|i: int, j: int|
                        #[trigger] first_lacking(map.layers@, self.materials@, i, j)
                            && tileset_guid == map.layers@[i].tileset_layers@[j].tileset_guid
                },
                Err(SyncError::MissingImage { .. }) => false,
            },
    {
        let entries: &Vec<MeshEntry> = match index.get(self.map_asset) {
            Some(entries) => entries,
            None => {
                return Ok(Vec::new());
            },
        };
        let place: Vec3 = match self.placement(map) {
            Ok(place) => place,
            Err(_) => {
                return Err(SyncError::UnsupportedOrientation);
            },
        };
        let mut chunks: Vec<ChunkComponents> = Vec::new();
        let mut i: usize = 0;
        while i < map.layers.len()
            invariant
                i <= map.layers.len(),
                forall|k: int, l: int| k < i ==> !#[trigger] lacks_material(
                    map.layers@,
                    self.materials@,
                    k,
                    l,
                ),
                chunks@ == map_chunks(
                    entries@,
                    map.layers@.take(i as int),
                    self.materials@,
                    place,
                ),
            decreases map.layers.len() - i,
        {
            let tilesets: &Vec<TilesetLayer> = &map.layers[i].tileset_layers;
            let ghost done = chunks@;
            let mut j: usize = 0;
            while j < tilesets.len()
                invariant
                    i < map.layers.len(),
                    tilesets == &map.layers@[i as int].tileset_layers,
                    j <= tilesets.len(),
                    forall|k: int, l: int|
                        (k < i || (k == i && l < j)) ==> !#[trigger] lacks_material(
                            map.layers@,
                            self.materials@,
                            k,
                            l,
                        ),
                    chunks@ == done + layer_chunks(
                        entries@,
                        i as int,
                        tilesets@.take(j as int),
                        self.materials@,
                        place,
                    ),
                decreases tilesets.len() - j,
            {
                let guid: u32 = tilesets[j].tileset_guid;
                let material: MaterialHandle = match self.materials.get(&guid) {
                    Some(material) => *material,
                    None => {
                        assert(first_lacking(map.layers@, self.materials@, i as int, j as int));
                        return Err(SyncError::MissingMaterial { tileset_guid: guid });
                    },
                };
                let ghost before = chunks@;
                let mut k: usize = 0;
                while k < entries.len()
                    invariant
                        k <= entries.len(),
                        chunks@ == before + tileset_chunks(
                            entries@.take(k as int),
                            i as int,
                            guid,
                            material,
                            place,
                        ),
                    decreases entries.len() - k,
                {
                    let entry: MeshEntry = entries[k];
                    proof {
                        assert(entries@.take(k + 1).drop_last() == entries@.take(k as int));
                    }
                    if entry.layer_id as usize == i && entry.tileset_guid == guid {
                        chunks.push(
                            ChunkComponents {
                                chunk: TileMapChunk { layer_id: entry.layer_id },
                                material,
                                mesh: entry.mesh,
                                transform: place,
                            },
                        );
                    }
                    k += 1;
                }
                proof {
                    assert(entries@.take(k as int) == entries@);
                    assert(tilesets@.take(j + 1).drop_last() == tilesets@.take(j as int));
                }
                j += 1;
            }
            proof {
                assert(tilesets@.take(j as int) == tilesets@);
                assert(map.layers@.take(i + 1).drop_last() == map.layers@.take(i as int));
            }
            i += 1;
        }
        proof {
            assert(map.layers@.take(i as int) == map.layers@);
        }
        Ok(chunks)
    }
}

/// Whether the chunk shows one of the meshes, in the layer recorded with
/// the mesh, with the material of the tileset recorded with the mesh, at the
/// placement.
pub open spec fn shows_mesh(
    chunk: ChunkComponents,
    entries: Seq<MeshEntry>,
    materials: Map<u32, MaterialHandle>,
    place: Vec3,
) -> bool {
    exists|k: int|
        0 <= k < entries.len() && chunk == chunk_of(
            #[trigger] entries[k],
            materials[entries[k].tileset_guid],
            place,
        )
}

/// Every chunk of a map shows one of the meshes: no chunk comes from
/// elsewhere, and each has the layer and the tileset of its mesh.
pub proof fn lemma_chunks_show_meshes(
    entries: Seq<MeshEntry>,
    layers: Seq<Layer>,
    materials: Map<u32, MaterialHandle>,
    place: Vec3,
)
    ensures
        forall|n: int|
            0 <= n < map_chunks(entries, layers, materials, place).len() ==> shows_mesh(
                #[trigger] map_chunks(entries, layers, materials, place)[n],
                entries,
                materials,
                place,
            ),
    decreases layers.len(),
{
    if layers.len() > 0 {
        let head = map_chunks(entries, layers.drop_last(), materials, place);
        let tail = layer_chunks(
            entries,
            layers.len() - 1,
            layers.last().tileset_layers@,
            materials,
            place,
        );
        lemma_chunks_show_meshes(entries, layers.drop_last(), materials, place);
        lemma_layer_chunks_show_meshes(
            entries,
            layers.len() - 1,
            layers.last().tileset_layers@,
            materials,
            place,
        );
        assert forall|n: int| 0 <= n < (head + tail).len() implies shows_mesh(
            #[trigger] (head + tail)[n],
            entries,
            materials,
            place,
        ) by {
            if n < head.len() {
                assert((head + tail)[n] == head[n]);
            } else {
                assert((head + tail)[n] == tail[n - head.len()]);
            }
        }
    }
}

proof fn lemma_layer_chunks_show_meshes(
    entries: Seq<MeshEntry>,
    layer: int,
    tilesets: Seq<TilesetLayer>,
    materials: Map<u32, MaterialHandle>,
    place: Vec3,
)
    ensures
        forall|n: int|
            0 <= n < layer_chunks(entries, layer, tilesets, materials, place).len() ==> shows_mesh(
                #[trigger] layer_chunks(entries, layer, tilesets, materials, place)[n],
                entries,
                materials,
                place,
            ),
    decreases tilesets.len(),
{
    if tilesets.len() > 0 {
        let guid = tilesets.last().tileset_guid;
        let head = layer_chunks(entries, layer, tilesets.drop_last(), materials, place);
        let tail = tileset_chunks(entries, layer, guid, materials[guid], place);
        lemma_layer_chunks_show_meshes(entries, layer, tilesets.drop_last(), materials, place);
        lemma_tileset_chunks_show_meshes(entries, layer, guid, materials, place);
        assert forall|n: int| 0 <= n < (head + tail).len() implies shows_mesh(
            #[trigger] (head + tail)[n],
            entries,
            materials,
            place,
        ) by {
            if n < head.len() {
                assert((head + tail)[n] == head[n]);
            } else {
                assert((head + tail)[n] == tail[n - head.len()]);
            }
        }
    }
}

proof fn lemma_tileset_chunks_show_meshes(
    entries: Seq<MeshEntry>,
    layer: int,
    guid: u32,
    materials: Map<u32, MaterialHandle>,
    place: Vec3,
)
    ensures
        forall|n: int|
            0 <= n < tileset_chunks(entries, layer, guid, materials[guid], place).len()
                ==> shows_mesh(
                #[trigger] tileset_chunks(entries, layer, guid, materials[guid], place)[n],
                entries,
                materials,
                place,
            ),
    decreases entries.len(),
{
    if entries.len() > 0 {
        let init = entries.drop_last();
        let rest = tileset_chunks(init, layer, guid, materials[guid], place);
        let all = tileset_chunks(entries, layer, guid, materials[guid], place);
        lemma_tileset_chunks_show_meshes(init, layer, guid, materials, place);
        assert forall|n: int| 0 <= n < all.len() implies shows_mesh(
            #[trigger] all[n],
            entries,
            materials,
            place,
        ) by {
            if n < rest.len() {
                assert(all[n] == rest[n]);
                assert(shows_mesh(rest[n], init, materials, place));
                let k = choose|k: int|
                    0 <= k < init.len() && rest[n] == chunk_of(
                        #[trigger] init[k],
                        materials[init[k].tileset_guid],
                        place,
                    );
                assert(entries[k] == init[k]);
            } else {
                let last = entries[entries.len() - 1];
                assert(belongs(last, layer, guid));
                assert(all[n] == chunk_of(last, materials[last.tileset_guid], place));
            }
        }
    }
}

/// To how many of the given tilesets of the layer of index `layer` a mesh
/// belongs.
pub open spec fn tileset_owners(entry: MeshEntry, layer: int, tilesets: Seq<TilesetLayer>) -> nat
    decreases tilesets.len(),
{
    if tilesets.len() == 0 {
        0
    } else {
        tileset_owners(entry, layer, tilesets.drop_last()) + if belongs(
            entry,
            layer,
            tilesets.last().tileset_guid,
        ) {
            1nat
        } else {
            0nat
        }
    }
}

/// To how many tilesets of how many layers a mesh belongs.
pub open spec fn owners(entry: MeshEntry, layers: Seq<Layer>) -> nat
    decreases layers.len(),
{
    if layers.len() == 0 {
        0
    } else {
        owners(entry, layers.drop_last()) + tileset_owners(
            entry,
            layers.len() - 1,
            layers.last().tileset_layers@,
        )
    }
}

/// The owners of all meshes of a list, added up.
pub open spec fn total_owners(entries: Seq<MeshEntry>, layers: Seq<Layer>) -> nat
    decreases entries.len(),
{
    if entries.len() == 0 {
        0
    } else {
        total_owners(entries.drop_last(), layers) + owners(entries.last(), layers)
    }
}

proof fn lemma_layer_chunks_count(
    entries: Seq<MeshEntry>,
    layer: int,
    tilesets: Seq<TilesetLayer>,
    materials: Map<u32, MaterialHandle>,
    place: Vec3,
)
    ensures
        entries.len() == 0 ==> layer_chunks(entries, layer, tilesets, materials, place).len() == 0,
        entries.len() > 0 ==> layer_chunks(entries, layer, tilesets, materials, place).len()
            == layer_chunks(entries.drop_last(), layer, tilesets, materials, place).len()
            + tileset_owners(entries.last(), layer, tilesets),
    decreases tilesets.len(),
{
    if tilesets.len() > 0 {
        lemma_layer_chunks_count(entries, layer, tilesets.drop_last(), materials, place);
    }
}

proof fn lemma_map_chunks_count(
    entries: Seq<MeshEntry>,
    layers: Seq<Layer>,
    materials: Map<u32, MaterialHandle>,
    place: Vec3,
)
    ensures
        entries.len() == 0 ==> map_chunks(entries, layers, materials, place).len() == 0,
        entries.len() > 0 ==> map_chunks(entries, layers, materials, place).len() == map_chunks(
            entries.drop_last(),
            layers,
            materials,
            place,
        ).len() + owners(entries.last(), layers),
    decreases layers.len(),
{
    if layers.len() > 0 {
        lemma_map_chunks_count(entries, layers.drop_last(), materials, place);
        lemma_layer_chunks_count(
            entries,
            layers.len() - 1,
            layers.last().tileset_layers@,
            materials,
            place,
        );
    }
}

/// A map gets as many chunks as its meshes have owners: a mesh gives one
/// chunk for each tileset of each layer that it belongs to.
pub proof fn lemma_chunk_count(
    entries: Seq<MeshEntry>,
    layers: Seq<Layer>,
    materials: Map<u32, MaterialHandle>,
    place: Vec3,
)
    ensures
        map_chunks(entries, layers, materials, place).len() == total_owners(entries, layers),
    decreases entries.len(),
{
    lemma_map_chunks_count(entries, layers, materials, place);
    if entries.len() > 0 {
        lemma_chunk_count(entries.drop_last(), layers, materials, place);
    }
}

/// Whether no layer names a tileset twice.
pub open spec fn tilesets_distinct(layers: Seq<Layer>) -> bool {
    forall|i: int, j: int, l: int|
        #![trigger layers[i].tileset_layers@[j], layers[i].tileset_layers@[l]]
        0 <= i < layers.len() && 0 <= j < l < layers[i].tileset_layers@.len()
            ==> layers[i].tileset_layers@[j].tileset_guid
            != layers[i].tileset_layers@[l].tileset_guid
}

/// Whether the map has a layer of index `layer_id`, and that layer draws
/// from the tileset `tileset_guid`.
pub open spec fn placed(layer_id: u32, tileset_guid: u32, layers: Seq<Layer>) -> bool {
    &&& layer_id < layers.len()
    &&& exists|j: int|
        0 <= j < layers[layer_id as int].tileset_layers@.len()
            && #[trigger] layers[layer_id as int].tileset_layers@[j].tileset_guid == tileset_guid
}

proof fn lemma_tileset_owners_bounds(entry: MeshEntry, layer: int, tilesets: Seq<TilesetLayer>)
    ensures
        entry.layer_id != layer ==> tileset_owners(entry, layer, tilesets) == 0,
        (forall|j: int|
            0 <= j < tilesets.len() ==> (#[trigger] tilesets[j]).tileset_guid
                != entry.tileset_guid) ==> tileset_owners(entry, layer, tilesets) == 0,
        (forall|j: int, l: int|
            0 <= j < l < tilesets.len() ==> (#[trigger] tilesets[j]).tileset_guid
                != (#[trigger] tilesets[l]).tileset_guid) ==> tileset_owners(
            entry,
            layer,
            tilesets,
        ) <= 1,
        entry.layer_id == layer && (exists|j: int|
            0 <= j < tilesets.len() && (#[trigger] tilesets[j]).tileset_guid
                == entry.tileset_guid) ==> tileset_owners(entry, layer, tilesets) >= 1,
    decreases tilesets.len(),
{
    if tilesets.len() > 0 {
        let init = tilesets.drop_last();
        let last = tilesets.last();
        lemma_tileset_owners_bounds(entry, layer, init);
        assert forall|j: int| 0 <= j < init.len() implies init[j] == tilesets[j] by {}
        if forall|j: int|
            0 <= j < tilesets.len() ==> (#[trigger] tilesets[j]).tileset_guid
                != entry.tileset_guid {
            assert forall|j: int| 0 <= j < init.len() implies (#[trigger] init[j]).tileset_guid
                != entry.tileset_guid by {
                assert(init[j] == tilesets[j]);
            }
            assert(tilesets[tilesets.len() - 1].tileset_guid != entry.tileset_guid);
        }
        if forall|j: int, l: int|
            0 <= j < l < tilesets.len() ==> (#[trigger] tilesets[j]).tileset_guid
                != (#[trigger] tilesets[l]).tileset_guid {
            assert forall|j: int, l: int| 0 <= j < l < init.len() implies (#[trigger] init[j]).tileset_guid
                != (#[trigger] init[l]).tileset_guid by {
                assert(init[j] == tilesets[j]);
                assert(init[l] == tilesets[l]);
            }
            if belongs(entry, layer, last.tileset_guid) {
                assert forall|j: int| 0 <= j < init.len() implies (#[trigger] init[j]).tileset_guid
                    != entry.tileset_guid by {
                    assert(init[j] == tilesets[j]);
                    assert(tilesets[tilesets.len() - 1] == last);
                }
            }
        }
        if entry.layer_id == layer && exists|j: int|
            0 <= j < tilesets.len() && (#[trigger] tilesets[j]).tileset_guid
                == entry.tileset_guid {
            let j = choose|j: int|
                0 <= j < tilesets.len() && (#[trigger] tilesets[j]).tileset_guid
                    == entry.tileset_guid;
            if j < init.len() {
                assert(init[j] == tilesets[j]);
            }
        }
    }
}

proof fn lemma_owners_elsewhere(entry: MeshEntry, layers: Seq<Layer>)
    requires
        entry.layer_id >= layers.len(),
    ensures
        owners(entry, layers) == 0,
    decreases layers.len(),
{
    if layers.len() > 0 {
        lemma_owners_elsewhere(entry, layers.drop_last());
        lemma_tileset_owners_bounds(entry, layers.len() - 1, layers.last().tileset_layers@);
    }
}

/// On a map whose layers name no tileset twice, a mesh that is recorded for
/// a layer of the map and a tileset of that layer has exactly one owner.
pub proof fn lemma_one_owner(entry: MeshEntry, layers: Seq<Layer>)
    requires
        tilesets_distinct(layers),
        placed(entry.layer_id, entry.tileset_guid, layers),
    ensures
        owners(entry, layers) == 1,
    decreases layers.len(),
{
    let init = layers.drop_last();
    let top = layers.len() - 1;
    let tilesets = layers.last().tileset_layers@;
    lemma_tileset_owners_bounds(entry, top, tilesets);
    if entry.layer_id == top {
        lemma_owners_elsewhere(entry, init);
        assert forall|j: int, l: int| 0 <= j < l < tilesets.len() implies (#[trigger] tilesets[j]).tileset_guid
            != (#[trigger] tilesets[l]).tileset_guid by {
            assert(layers[top].tileset_layers@[j].tileset_guid
                != layers[top].tileset_layers@[l].tileset_guid);
        }
        let j = choose|j: int|
            0 <= j < layers[entry.layer_id as int].tileset_layers@.len()
                && #[trigger] layers[entry.layer_id as int].tileset_layers@[j].tileset_guid
                == entry.tileset_guid;
        assert(tilesets[j].tileset_guid == entry.tileset_guid);
    } else {
        assert forall|i: int, j: int, l: int|
            #![trigger init[i].tileset_layers@[j], init[i].tileset_layers@[l]]
            0 <= i < init.len() && 0 <= j < l < init[i].tileset_layers@.len()
                implies init[i].tileset_layers@[j].tileset_guid
            != init[i].tileset_layers@[l].tileset_guid by {
            assert(init[i] == layers[i]);
            assert(layers[i].tileset_layers@[j].tileset_guid
                != layers[i].tileset_layers@[l].tileset_guid);
        }
        assert(init[entry.layer_id as int] == layers[entry.layer_id as int]);
        let j = choose|j: int|
            0 <= j < layers[entry.layer_id as int].tileset_layers@.len()
                && #[trigger] layers[entry.layer_id as int].tileset_layers@[j].tileset_guid
                == entry.tileset_guid;
        assert(init[entry.layer_id as int].tileset_layers@[j].tileset_guid == entry.tileset_guid);
        lemma_one_owner(entry, init);
    }
}

/// On a map whose layers name no tileset twice, meshes that are each
/// recorded for a layer of the map and a tileset of that layer give exactly
/// one chunk each.
pub proof fn lemma_one_chunk_per_mesh(
    entries: Seq<MeshEntry>,
    layers: Seq<Layer>,
    materials: Map<u32, MaterialHandle>,
    place: Vec3,
)
    requires
        tilesets_distinct(layers),
        forall|k: int|
            0 <= k < entries.len() ==> placed(
                (#[trigger] entries[k]).layer_id,
                entries[k].tileset_guid,
                layers,
            ),
    ensures
        map_chunks(entries, layers, materials, place).len() == entries.len(),
    decreases entries.len(),
{
    lemma_map_chunks_count(entries, layers, materials, place);
    if entries.len() > 0 {
        let init = entries.drop_last();
        assert forall|k: int| 0 <= k < init.len() implies placed(
            (#[trigger] init[k]).layer_id,
            init[k].tileset_guid,
            layers,
        ) by {
            assert(init[k] == entries[k]);
        }
        lemma_one_chunk_per_mesh(init, layers, materials, place);
        let last = entries[entries.len() - 1];
        assert(placed(last.layer_id, last.tileset_guid, layers));
        lemma_one_owner(entries.last(), layers);
    }
}

} // verus!
