//! An in-memory, bounded cache of a directed acyclic graph of messages (the
//! "tangle"), with least-recently-used eviction, a parent-to-children index,
//! and read-through / write-through integration with a pluggable durable
//! storage back-end.

pub mod access;
pub mod assoc;
pub mod eviction;
pub mod hooks;
pub mod message;
pub mod snapshot;
pub mod tangle;
pub mod vertex;
pub mod worker;

pub use access::{Delete, Exist, Fetch, Insert, StorageBackend};
pub use hooks::{Hooks, NullHooks};
pub use message::{Message, MessageId, MessageRef, MilestoneIndex, SolidEntryPoint};
pub use snapshot::{Kind, Snapshot, SnapshotError, SnapshotHeader};
pub use tangle::{ChildrenEntry, Tangle, CACHE_LEN};
pub use worker::{BootstrapPhase, ShutdownDecision, SnapshotInfo, TangleWorker};
pub use vertex::Vertex;
