//! Cluster-management plane for a sharded RESP key-value store.
//!
//! The crate models the metadata broker that owns cluster topology
//! (slot coverage, replication placement, proxy ownership), the online
//! slot-migration handshake driven between a migrating and an importing
//! proxy, and the small algebras they rest on: slot ranges, the CRC16
//! keyspace hash, and the decimal wire encoding of topology metadata.

pub mod cluster;
pub mod digits;
pub mod migration;
pub mod protocol;
pub mod scan;
pub mod service;
pub mod slot;
pub mod slowlog;
pub mod store;
pub mod tasks;
pub mod utils;
pub mod version;
