//! A persistent key-value store with an append-only log, a binary request
//! protocol, client-side partitioning, total order broadcast and a raft
//! log store.

pub mod record;
pub mod hashmap_log;
pub mod server;
pub mod client;
pub mod raft_storage;
pub mod raft_node;
pub mod tob;
pub mod tob2;
pub mod rest;
pub mod single_thread_server;
