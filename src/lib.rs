//! The supervisory core of a BitTorrent client: the control-channel codec,
//! the daemon's registries of torrents, and the decisions of its command loop.
mod be;
pub mod state;
pub mod wire;
pub mod registry;
pub mod daemon;
pub mod laws;


