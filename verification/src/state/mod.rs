//! The node's shared state: who works on which repository, and how much.

pub mod broadcast;
pub mod budgets;
pub mod encrypt_inflight;
pub mod leases;
pub mod repo_key;
pub mod scan_token;
pub mod shutdown;
