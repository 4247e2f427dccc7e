//! Storage synchronization and read cache for re-executing sealed batches.
//!
//! The cache keeps a local snapshot at some floor batch and stacks in-memory
//! diffs of the batches above it, so that readers can see the newest sealed
//! data before the snapshot catches up.
pub mod batch;
pub mod cache;
pub mod wallet;
