//! The node's identity key: how it is named, published, loaded, recovered
//! after a crash and swept.
//!
//! Nothing here touches a file. Each procedure is a machine: its state says
//! which file operation it waits for ([`ops::KeyOp`]), and a step takes the
//! reply to that operation ([`ops::Reply`]) to the next state or to an outcome.
//! The caller performs the operations, one after the other, and reports back.

pub mod boot;
pub mod disk;
pub mod heartbeat;
pub mod leftovers;
pub mod listing;
pub mod load;
pub mod names;
pub mod ops;
pub mod publish;
pub mod race;
pub mod recover;
pub mod report;
pub mod supersede;
pub mod sweep;
