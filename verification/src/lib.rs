//! Partitioned, append-only log storage engine for a pub/sub message broker.
//!
//! The engine organizes data as streams of topics of partitions. Each
//! partition is an ordered, append-only log split into file-sized segments,
//! fronted by a bounded in-memory cache whose total footprint across all
//! partitions is held to a budget by proportional eviction.

pub mod cache;
pub mod cli;
pub mod codec;
pub mod commands;
pub mod error;
pub mod identifier;
pub mod laws;
pub mod logging;
pub mod message;
pub mod offsets;
pub mod partition;
pub mod permissioner;
pub mod recovery;
pub mod segment;
pub mod stream;
pub mod system;
pub mod text;
pub mod topic;
pub mod usage;
