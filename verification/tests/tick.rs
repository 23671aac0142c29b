use tilemap_sync::events::{changed_maps, AssetEvent};
use tilemap_sync::fixed::{Vec2, Vec3};
use tilemap_sync::handle::{GeometryId, MapHandle, MaterialHandle, MeshHandle};
use tilemap_sync::map::{GeometryBatch, Image, Layer, MapInfo, Orientation, TiledMap, Tileset, TilesetLayer};
use tilemap_sync::materials::TiledMapComponents;
use tilemap_sync::meshes::MeshIndex;
use tilemap_sync::spawn::ChunkComponents;

/// Runs one tick over a single map and a single instance the way a host
/// would, with counters in place of the texture loader and the allocators.
/// Returns the spawned chunks and the number of texture loads.
fn tick(
    events: &Vec<AssetEvent>,
    handle: MapHandle,
    map: &mut TiledMap,
    instance: &mut TiledMapComponents,
    next_id: &mut u128,
) -> (Vec<ChunkComponents>, usize) {
    let mut loads = 0;
    let mut index = MeshIndex::new();
    for id in changed_maps(events) {
        assert_eq!(id, handle.id);
        for request in instance.missing_materials(map).unwrap() {
            loads += 1;
            *next_id += 1;
            assert!(instance.cache_material(request.tileset_guid, MaterialHandle { id: *next_id }));
        }
        let mut uploads = Vec::new();
        for batch in map.drain_meshes() {
            *next_id += 1;
            uploads.push((batch, MeshHandle { id: *next_id }));
        }
        index.record_uploads(handle, &uploads);
    }
    (instance.chunk_entities(map, &index).unwrap(), loads)
}

fn scenario_map() -> TiledMap {
    TiledMap {
        map: MapInfo {
            orientation: Orientation::Orthogonal,
            width: 8,
            height: 8,
            tile_width: 16,
            tile_height: 16,
            tilesets: vec![Tileset { first_gid: 7, images: vec![Image { source: "tiles.png".to_string() }] }],
        },
        meshes: vec![
            GeometryBatch { layer_id: 0, tileset_guid: 7, geometry: GeometryId { id: 1 } },
            GeometryBatch { layer_id: 0, tileset_guid: 7, geometry: GeometryId { id: 2 } },
        ],
        layers: vec![Layer {
            tileset_layers: vec![TilesetLayer { tile_size: Vec2::from_whole(16, 16), chunks: Vec::new(), tileset_guid: 7 }],
        }],
        tile_size: Vec2::from_whole(16, 16),
        image_folder: "maps".to_string(),
    }
}

#[test]
fn one_tick_spawns_one_chunk_per_batch() {
    let handle = MapHandle { id: 1 };
    let mut map = scenario_map();
    let mut instance = TiledMapComponents::default();
    instance.map_asset = handle;
    instance.origin = Vec3::from_whole(12, -5, 3);
    let mut next_id = 1000;
    let events = vec![AssetEvent::Created { handle }];
    let (chunks, loads) = tick(&events, handle, &mut map, &mut instance, &mut next_id);

    assert_eq!(chunks.len(), 2);
    assert_eq!(loads, 1);
    assert_eq!(instance.materials.len(), 1);
    let material = instance.materials[&7];
    for c in &chunks {
        assert_eq!(c.chunk.layer_id, 0);
        assert_eq!(c.material, material);
        assert_eq!(c.transform, Vec3::from_whole(12, -5, 3));
    }
    assert_ne!(chunks[0].mesh, chunks[1].mesh);
    assert!(map.meshes.is_empty());
}

#[test]
fn a_second_tick_without_new_geometry_spawns_nothing() {
    let handle = MapHandle { id: 1 };
    let mut map = scenario_map();
    let mut instance = TiledMapComponents::default();
    instance.map_asset = handle;
    let mut next_id = 1000;
    let created = vec![AssetEvent::Created { handle }];
    let (first, first_loads) = tick(&created, handle, &mut map, &mut instance, &mut next_id);
    assert_eq!((first.len(), first_loads), (2, 1));
    let modified = vec![AssetEvent::Modified { handle }];
    let (second, second_loads) = tick(&modified, handle, &mut map, &mut instance, &mut next_id);
    assert_eq!((second.len(), second_loads), (0, 0));
}

#[test]
fn a_map_created_and_removed_in_one_tick_is_left_alone() {
    let handle = MapHandle { id: 1 };
    let mut map = scenario_map();
    let mut instance = TiledMapComponents::default();
    instance.map_asset = handle;
    let mut next_id = 1000;
    let events = vec![AssetEvent::Created { handle }, AssetEvent::Removed { handle }];
    let (chunks, loads) = tick(&events, handle, &mut map, &mut instance, &mut next_id);
    assert_eq!((chunks.len(), loads), (0, 0));
    assert_eq!(map.meshes.len(), 2);
    assert!(instance.materials.is_empty());
}
