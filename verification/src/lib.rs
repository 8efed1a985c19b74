//! A BitTorrent client core.

pub mod bitfield;
pub mod btclient;
pub mod connection;
pub mod console;
pub mod laws;
pub mod metainfo;
pub mod readiness;
pub mod slots;
pub mod text;
pub mod torrent;
pub mod tracker;
pub mod wire;
