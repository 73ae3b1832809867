//! Schema migrations for a column-partitioned blockchain state store.
pub mod batch;
pub mod bloom;
pub mod codec;
pub mod hashdb;
pub mod key;
pub mod launch;
pub mod migration;
pub mod store;
