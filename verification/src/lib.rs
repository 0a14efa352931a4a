//! The verified core of a gitlawb node.

pub mod bytes;
pub mod identity;
pub mod json;
pub mod metrics;
pub mod p2p;
pub mod startup;
pub mod state;
pub mod test_harness;
pub mod text;
