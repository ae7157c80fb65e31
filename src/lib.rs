//! Replication and pruning of the snapshots of ZFS datasets between hosts: an address parser,
//! the two-way reconciliation of snapshot histories, the decisions of the replication
//! orchestrator, the launch descriptions of the `zfs` commands it runs, the reading of their
//! output, and the retention policy.

pub mod comm;
pub mod dataset;
pub mod machine;
pub mod progress;
pub mod reconcile;
pub mod replicate;
pub mod retention;
pub mod runs;
pub mod snap;
pub mod text;
