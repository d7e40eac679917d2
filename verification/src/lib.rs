//! Replication-and-consistency engine for a content-addressed storage
//! network built on a Kademlia-style XOR distance metric.
//!
//! The crate covers: framing records on the wire with a typed kind header;
//! deciding, on every membership change, which records must move to which
//! peer so that each record stays with its close group; pulling records a
//! peer is missing; settling signed spends with double-spend detection; and
//! merging append-only CRDT registers.

pub mod address;
pub mod cli;
pub mod fetcher;
pub mod header;
pub mod msg;
pub mod registers;
pub mod replication;
pub mod spends;
pub mod transport;
