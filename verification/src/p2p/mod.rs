//! The node's part in the peer-to-peer network.

pub mod address_book;
pub mod keys;
pub mod reports;
pub mod swarm;
pub mod wire;
