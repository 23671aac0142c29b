[package]
name = "tilemap_sync"
version = "0.1.0"
edition = "2021"
publish = false

[dependencies]
bevy = { version = "=0.2.1", default-features = false, features = ["render"] }
glam = "=0.9.5"
# Not used by this crate: pinned for the file watcher of bevy_asset, which
# does not build against later releases of notify.
notify = "=5.0.0-pre.2"
tiled = "=0.9.4"
