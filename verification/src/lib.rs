//! A small key-value store whose replication core is a Raft-style consensus
//! engine: a durable append-only log, cancellable timers, and a node that
//! cycles through the follower, candidate and leader roles.

pub mod kv;
pub mod proto;
pub mod raft;
