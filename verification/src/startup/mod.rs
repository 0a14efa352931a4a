//! The start of the node: the decisions between the outside calls.

pub mod db_retry;
pub mod gossip;
pub mod limits;
pub mod operator;
pub mod plan;
pub mod run;
pub mod serve;
