//! Synchronisation core for tile maps.
//!
//! A tile map is a grid of layers, each split into per-tileset batches of
//! chunk geometry. This crate holds the decisions a renderer front end has
//! to take once per tick to keep its scene in step with the loaded maps:
//!
//! * [`projection`]: grid-to-screen coordinate math in fixed-point
//!   arithmetic, for orthogonal and isometric maps;
//! * [`events`]: reduction of a tick's asset events to the set of maps that
//!   have to be synchronised again;
//! * [`materials`]: which tilesets still need a material, and under which
//!   texture path;
//! * [`meshes`]: the per-tick index of uploaded chunk meshes;
//! * [`spawn`]: the chunk entities to spawn for a map instance;
//! * [`tick`]: what the later steps of a tick can rely on.
//!
//! Everything here works on plain values. Loading textures, uploading meshes
//! and spawning entities is left to the caller, which hands the resulting
//! handles back.

pub mod error;
pub mod events;
pub mod fixed;
pub mod handle;
pub mod map;
pub mod materials;
pub mod meshes;
pub mod projection;
pub mod spawn;
pub mod tick;
