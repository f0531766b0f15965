//! Core of a partitioned publish/subscribe message broker: the user registry
//! and sessions, permissions, the stream/topic/partition directory, the
//! append and poll pipelines, the cache memory tracker and shard routing.
pub mod encryption;
pub mod error;
pub mod handlers;
pub mod identifier;
pub mod memory_tracker;
pub mod metadata;
pub mod namespace;
pub mod partition;
pub mod permissions;
pub mod session;
pub mod shard;
pub mod sums;
pub mod topic;
pub mod users;
