//! Keeps a durable copy of the metadata database in an object store: the leader
//! uploads a snapshot, and every process applies the latest one on promotion.
//!
//! The object store holds the only authoritative copy: a leader always promotes
//! onto the object that is current at that moment, never onto its own local
//! database, and an upload never replaces the snapshot of a newer leadership term.

pub mod metasync;
