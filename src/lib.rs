//! Durable, recoverable state for actors: an append-only event journal with
//! snapshots, the recovery decision that combines them, and the registry of
//! running actors.
//!
//! The library computes on the bytes of an actor's files and on plain values;
//! opening, reading and writing the files is the caller's part.
pub mod actor;
pub mod builtins;
pub mod codec;
pub mod context;
pub mod journal;
pub mod registry;
pub mod runtime;
pub mod value;

pub use actor::{Actor, ActorId, ActorRef};
pub use builtins::actor_builtins;
pub use context::ActorContext;
pub use journal::{Event, Journal, JournalError, Snapshot};
pub use registry::{ActorRegistry, Mailbox};
pub use runtime::{replay, ActorRuntime, Recovery, RuntimeConfig};
pub use seq_runtime::{SerializeError, TypedMapKey, TypedValue, ValueSerialize};
pub use seq_runtime::TypedMapKey as MapKey;
