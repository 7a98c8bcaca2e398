//! A minimal BitTorrent tracker core: per-torrent swarms of active peers,
//! announce semantics with expiry, and the compact bencoded peer response.
pub mod encode;
pub mod laws;
pub mod peer;
pub mod registry;
pub mod swarm;
