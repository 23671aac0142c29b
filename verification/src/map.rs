//! The data model of a loaded tile map.

use crate::fixed::{Vec2, Vec4};
use crate::handle::GeometryId;
use vstd::prelude::*;

verus! {

/// One tile: where it sits and which part of the tileset's image it shows.
#[derive(Clone, Debug, PartialEq, Eq)]
pub struct Tile {
    pub tile_id: u32,
    pub pos: Vec2,
    pub vertex: Vec4,
    pub uv: Vec4,
}

/// A rectangular block of tiles of one tileset within one layer.
#[derive(Clone, Debug, PartialEq, Eq)]
pub struct Chunk {
    pub position: Vec2,
    pub tiles: Vec<Vec<Tile>>,
}

/// All chunks of one layer that are drawn with one tileset.
#[derive(Clone, Debug, PartialEq, Eq)]
pub struct TilesetLayer {
    pub tile_size: Vec2,
    pub chunks: Vec<Vec<Chunk>>,
    pub tileset_guid: u32,
}

/// A layer of the map; it may draw from several tilesets.
#[derive(Clone, Debug, PartialEq, Eq)]
pub struct Layer {
    pub tileset_layers: Vec<TilesetLayer>,
}

/// How the grid of a map is laid out on screen.
#[derive(Clone, Copy, Debug, PartialEq, Eq, Structural)]
pub enum Orientation {
    Orthogonal,
    Isometric,
    Staggered,
    Hexagonal,
}

/// An image that a tileset refers to.
#[derive(Clone, Debug, PartialEq, Eq)]
pub struct Image {
    pub source: String,
}

/// A tileset of the map: its id and its images.
#[derive(Clone, Debug, PartialEq, Eq)]
pub struct Tileset {
    pub first_gid: u32,
    pub images: Vec<Image>,
}

/// What the map file says about the map as a whole.
#[derive(Clone, Debug, PartialEq, Eq)]
pub struct MapInfo {
    pub orientation: Orientation,
    /// Width of the grid, in cells.
    pub width: u32,
    /// Height of the grid, in cells.
    pub height: u32,
    /// Width of a tile, in pixels.
    pub tile_width: u32,
    /// Height of a tile, in pixels.
    pub tile_height: u32,
    pub tilesets: Vec<Tileset>,
}

/// Geometry of one chunk that still waits for its upload.
#[derive(Clone, Copy, Debug, PartialEq, Eq, Structural)]
pub struct GeometryBatch {
    pub layer_id: u32,
    pub tileset_guid: u32,
    pub geometry: GeometryId,
}

/// A loaded tile map.
#[derive(Clone, Debug, PartialEq, Eq)]
pub struct TiledMap {
    pub map: MapInfo,
    /// Chunk geometry that has not been uploaded yet.
    pub meshes: Vec<GeometryBatch>,
    pub layers: Vec<Layer>,
    pub tile_size: Vec2,
    pub image_folder: String,
}

} // verus!
