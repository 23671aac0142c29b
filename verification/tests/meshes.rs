use tilemap_sync::fixed::Vec2;
use tilemap_sync::handle::{GeometryId, MapHandle, MeshHandle};
use tilemap_sync::map::{GeometryBatch, Layer, MapInfo, Orientation, TiledMap, TilesetLayer};
use tilemap_sync::meshes::{MeshEntry, MeshIndex};

fn batch(layer_id: u32, tileset_guid: u32, id: u64) -> GeometryBatch {
    GeometryBatch { layer_id, tileset_guid, geometry: GeometryId { id } }
}

fn entry(layer_id: u32, tileset_guid: u32, id: u128) -> MeshEntry {
    MeshEntry { layer_id, tileset_guid, mesh: MeshHandle { id } }
}

fn map_with(meshes: Vec<GeometryBatch>) -> TiledMap {
    TiledMap {
        map: MapInfo {
            orientation: Orientation::Isometric,
            width: 4,
            height: 4,
            tile_width: 16,
            tile_height: 16,
            tilesets: Vec::new(),
        },
        meshes,
        layers: vec![Layer {
            tileset_layers: vec![TilesetLayer { tile_size: Vec2::from_whole(16, 16), chunks: Vec::new(), tileset_guid: 1 }],
        }],
        tile_size: Vec2::from_whole(16, 16),
        image_folder: "maps".to_string(),
    }
}

#[test]
fn drain_hands_out_everything_in_order() {
    let batches = vec![batch(0, 1, 10), batch(1, 1, 11), batch(0, 2, 12)];
    let mut map = map_with(batches.clone());
    let rest = map_with(Vec::new());
    assert_eq!(map.drain_meshes(), batches);
    assert!(map.meshes.is_empty());
    assert_eq!(map, rest);
}

#[test]
fn second_drain_hands_out_nothing() {
    let mut map = map_with(vec![batch(0, 1, 10), batch(0, 1, 11)]);
    let handle = MapHandle { id: 5 };
    let mut index = MeshIndex::new();
    let mut next_mesh = 100;
    for round in 0..2 {
        let drained = map.drain_meshes();
        assert_eq!(drained.len(), if round == 0 { 2 } else { 0 });
        let mut uploads = Vec::new();
        for b in drained {
            uploads.push((b, MeshHandle { id: next_mesh }));
            next_mesh += 1;
        }
        index.record_uploads(handle, &uploads);
    }
    assert_eq!(index.get(handle), Some(&vec![entry(0, 1, 100), entry(0, 1, 101)]));
    assert!(map.meshes.is_empty());
}

#[test]
fn drain_of_a_map_without_geometry_is_empty() {
    let mut map = map_with(Vec::new());
    assert_eq!(map.drain_meshes(), Vec::new());
}

#[test]
fn new_index_has_no_entry() {
    let index = MeshIndex::new();
    assert!(!index.contains(MapHandle { id: 1 }));
    assert_eq!(index.get(MapHandle { id: 1 }), None);
}

#[test]
fn index_keeps_meshes_by_map_in_upload_order() {
    let a = MapHandle { id: 1 };
    let b = MapHandle { id: 2 };
    let mut index = MeshIndex::new();
    index.push(a, entry(0, 7, 100));
    index.push(b, entry(3, 9, 200));
    index.push(a, entry(1, 7, 101));
    index.push(a, entry(0, 7, 100));
    assert!(index.contains(a));
    assert!(index.contains(b));
    assert!(!index.contains(MapHandle { id: 3 }));
    assert_eq!(index.get(a), Some(&vec![entry(0, 7, 100), entry(1, 7, 101), entry(0, 7, 100)]));
    assert_eq!(index.get(b), Some(&vec![entry(3, 9, 200)]));
    assert_eq!(index.get(MapHandle { id: 3 }), None);
}

#[test]
fn uploads_are_recorded_under_layer_and_tileset_of_their_batch() {
    let a = MapHandle { id: 1 };
    let b = MapHandle { id: 2 };
    let mut index = MeshIndex::new();
    index.record_uploads(a, &vec![(batch(0, 7, 10), MeshHandle { id: 100 }), (batch(2, 8, 11), MeshHandle { id: 101 })]);
    index.record_uploads(b, &Vec::new());
    index.record_uploads(a, &vec![(batch(1, 7, 12), MeshHandle { id: 102 })]);
    index.record_uploads(a, &Vec::new());
    assert_eq!(index.get(a), Some(&vec![entry(0, 7, 100), entry(2, 8, 101), entry(1, 7, 102)]));
    assert!(!index.contains(b));
    assert_eq!(index.get(b), None);
}
