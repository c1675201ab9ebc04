//! The rules of an artifact repository server: what it stores, serves, blocks,
//! merges, replicates and announces.

pub mod bridge;
pub mod config;
pub mod cut;
pub mod json;
pub mod meta;
pub mod notify;
pub mod objstore;
pub mod percent;
pub mod record;
pub mod replication;
pub mod repo;
pub mod sync_laws;
pub mod table;
pub mod text;
pub mod text_laws;
pub mod times;
