//! What can keep a map from being synchronised.

use vstd::prelude::*;

verus! {

/// Why the synchronisation of one map was given up for this tick.
#[derive(Clone, Copy, Debug, PartialEq, Eq, Structural)]
pub enum SyncError {
    /// The map is neither orthogonal nor isometric.
    UnsupportedOrientation,
    /// A tileset that needs a material names no image to load.
    MissingImage { tileset_guid: u32 },
    /// A tileset layer is to be drawn with a tileset that has no material yet.
    MissingMaterial { tileset_guid: u32 },
}

} // verus!
