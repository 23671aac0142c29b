//! Handles: the ids under which the host keeps maps, meshes and materials.

use vstd::prelude::*;

verus! {

/// Id that a handle holds until it is pointed at an asset.
pub const DEFAULT_HANDLE_ID: u128 = 240940089166493627844978703213080810552;

/// Names a map asset in the host's asset store.
#[derive(Clone, Copy, Debug, PartialEq, Eq, Structural)]
pub struct MapHandle {
    pub id: u128,
}

/// Names a mesh that the host has uploaded.
#[derive(Clone, Copy, Debug, PartialEq, Eq, Structural)]
pub struct MeshHandle {
    pub id: u128,
}

/// Names a material that the host has built from a tileset's texture.
#[derive(Clone, Copy, Debug, PartialEq, Eq, Structural)]
pub struct MaterialHandle {
    pub id: u128,
}

/// Names the raw geometry of one chunk, as the host keeps it until upload.
#[derive(Clone, Copy, Debug, PartialEq, Eq, Structural)]
pub struct GeometryId {
    pub id: u64,
}

impl Default for MapHandle {
    fn default() -> (h: MapHandle)
        ensures
            h.id == DEFAULT_HANDLE_ID,
    {
        MapHandle { id: DEFAULT_HANDLE_ID }
    }
}

impl Default for MeshHandle {
    fn default() -> (h: MeshHandle)
        ensures
            h.id == DEFAULT_HANDLE_ID,
    {
        MeshHandle { id: DEFAULT_HANDLE_ID }
    }
}

impl Default for MaterialHandle {
    fn default() -> (h: MaterialHandle)
        ensures
            h.id == DEFAULT_HANDLE_ID,
    {
        MaterialHandle { id: DEFAULT_HANDLE_ID }
    }
}

} // verus!
