//! An in-memory, Redis-style keyspace core: typed byte-keyed stores, a
//! command engine for list operations with exact index/range semantics,
//! and a per-key waiter registry for blocking reads.

pub mod laws;
pub mod lists;
pub mod state;
pub mod store;
pub mod types;
pub mod values;
