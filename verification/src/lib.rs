//! Control plane of a multi-index search service.
//!
//! The crate models the three coordination tiers that sit above an external
//! search engine: a name resolver that binds user-facing index names to
//! stable internal identifiers, a per-index durable update queue with
//! payload blobs, and an index worker that applies updates serially. A
//! snapshot service captures all tiers into one archive. Each tier is a
//! plain state machine; the surrounding process (HTTP surface, disk and
//! network I/O, the engine itself) drives these machines from outside.

pub mod assoc;
pub mod data;
pub mod error;
pub mod index_actor;
pub mod mailbox;
pub mod snapshot;
pub mod update_actor;
pub mod update_store;
pub mod uuid_resolver;
