use tilemap_sync::error::SyncError;
use tilemap_sync::fixed::{Vec2, Vec3};
use tilemap_sync::handle::{MapHandle, MaterialHandle, DEFAULT_HANDLE_ID};
use tilemap_sync::map::{Image, MapInfo, Orientation, TiledMap, Tileset};
use tilemap_sync::materials::{MaterialRequest, TiledMapCenter, TiledMapComponents};

fn tileset(first_gid: u32, sources: &[&str]) -> Tileset {
    Tileset {
        first_gid,
        images: sources.iter().map(|s| Image { source: s.to_string() }).collect(),
    }
}

fn map_with(folder: &str, tilesets: Vec<Tileset>) -> TiledMap {
    TiledMap {
        map: MapInfo {
            orientation: Orientation::Orthogonal,
            width: 4,
            height: 4,
            tile_width: 16,
            tile_height: 16,
            tilesets,
        },
        meshes: Vec::new(),
        layers: Vec::new(),
        tile_size: Vec2::from_whole(16, 16),
        image_folder: folder.to_string(),
    }
}

fn request(tileset_guid: u32, path: &str) -> MaterialRequest {
    MaterialRequest { tileset_guid, texture_path: path.to_string() }
}

#[test]
fn default_instance_is_empty_and_not_centred() {
    let instance = TiledMapComponents::default();
    assert_eq!(instance.map_asset, MapHandle { id: DEFAULT_HANDLE_ID });
    assert!(instance.materials.is_empty());
    assert_eq!(instance.origin, Vec3 { x: 0, y: 0, z: 0 });
    assert_eq!(instance.center, TiledMapCenter(false));
    assert_eq!(TiledMapCenter::default(), TiledMapCenter(false));
    assert_eq!(MapHandle::default().id, 240940089166493627844978703213080810552);
    assert_eq!(MaterialHandle::default().id, DEFAULT_HANDLE_ID);
}

#[test]
fn every_tileset_without_material_is_requested_in_order() {
    let map = map_with("assets/maps", vec![tileset(1, &["ground.png"]), tileset(65, &["trees.png", "extra.png"])]);
    let instance = TiledMapComponents::default();
    assert_eq!(
        instance.missing_materials(&map),
        Ok(vec![request(1, "assets/maps/ground.png"), request(65, "assets/maps/trees.png")])
    );
}

#[test]
fn texture_path_joins_folder_and_source_with_a_slash() {
    let map = map_with("", vec![tileset(1, &["a.png"])]);
    let instance = TiledMapComponents::default();
    assert_eq!(instance.missing_materials(&map), Ok(vec![request(1, "/a.png")]));
    let map = map_with("dir/", vec![tileset(1, &[""])]);
    assert_eq!(instance.missing_materials(&map), Ok(vec![request(1, "dir//")]));
}

#[test]
fn cached_tilesets_are_not_requested() {
    let map = map_with("m", vec![tileset(1, &["a.png"]), tileset(2, &["b.png"]), tileset(3, &["c.png"])]);
    let mut instance = TiledMapComponents::default();
    assert!(instance.cache_material(2, MaterialHandle { id: 900 }));
    assert_eq!(instance.missing_materials(&map), Ok(vec![request(1, "m/a.png"), request(3, "m/c.png")]));
}

#[test]
fn a_tileset_is_requested_once() {
    let map = map_with("m", vec![tileset(5, &["a.png"]), tileset(6, &["b.png"]), tileset(5, &["other.png"])]);
    let instance = TiledMapComponents::default();
    assert_eq!(instance.missing_materials(&map), Ok(vec![request(5, "m/a.png"), request(6, "m/b.png")]));
}

#[test]
fn a_map_without_tilesets_needs_nothing() {
    let map = map_with("m", Vec::new());
    assert_eq!(TiledMapComponents::default().missing_materials(&map), Ok(Vec::new()));
}

#[test]
fn a_tileset_without_image_cannot_be_requested() {
    let map = map_with("m", vec![tileset(1, &["a.png"]), tileset(2, &[]), tileset(3, &[])]);
    let instance = TiledMapComponents::default();
    assert_eq!(instance.missing_materials(&map), Err(SyncError::MissingImage { tileset_guid: 2 }));
}

#[test]
fn a_cached_tileset_needs_no_image() {
    let map = map_with("m", vec![tileset(2, &[]), tileset(3, &["c.png"])]);
    let mut instance = TiledMapComponents::default();
    instance.cache_material(2, MaterialHandle { id: 1 });
    assert_eq!(instance.missing_materials(&map), Ok(vec![request(3, "m/c.png")]));
}

#[test]
fn the_first_material_of_a_tileset_stays() {
    let mut instance = TiledMapComponents::default();
    instance.map_asset = MapHandle { id: 4 };
    instance.origin = Vec3::from_whole(1, 2, 3);
    instance.center = TiledMapCenter(true);
    assert!(instance.cache_material(7, MaterialHandle { id: 100 }));
    assert!(!instance.cache_material(7, MaterialHandle { id: 200 }));
    assert!(instance.cache_material(8, MaterialHandle { id: 300 }));
    assert_eq!(instance.materials.len(), 2);
    assert_eq!(instance.materials.get(&7), Some(&MaterialHandle { id: 100 }));
    assert_eq!(instance.materials.get(&8), Some(&MaterialHandle { id: 300 }));
    assert_eq!(instance.map_asset, MapHandle { id: 4 });
    assert_eq!(instance.origin, Vec3::from_whole(1, 2, 3));
    assert_eq!(instance.center, TiledMapCenter(true));
}

#[test]
fn resolving_twice_requests_nothing_the_second_time() {
    let map = map_with("m", vec![tileset(1, &["a.png"]), tileset(2, &["b.png"]), tileset(1, &["a.png"])]);
    let mut instance = TiledMapComponents::default();
    let first = instance.missing_materials(&map).unwrap();
    assert_eq!(first.len(), 2);
    let mut loads = 0;
    for r in &first {
        loads += 1;
        assert!(instance.cache_material(r.tileset_guid, MaterialHandle { id: 1000 + r.tileset_guid as u128 }));
    }
    let second = instance.missing_materials(&map).unwrap();
    assert_eq!(second, Vec::new());
    assert_eq!(loads, 2);
    assert_eq!(instance.materials.len(), 2);
}

#[test]
fn missing_materials_leaves_the_cache_alone() {
    let map = map_with("m", vec![tileset(1, &["a.png"])]);
    let instance = TiledMapComponents::default();
    let before = instance.clone();
    let _ = instance.missing_materials(&map);
    assert_eq!(instance, before);
}
