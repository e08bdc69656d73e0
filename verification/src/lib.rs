//! An append-only, keyed log with live subscriptions.
//!
//! Records are appended under byte-string keys inside named spaces
//! (independent keyspaces). The crate provides the wire codec for the
//! framed request/response protocol, the in-memory store backend, the
//! per-connection session engine, and the pure parts of the client
//! library. Transport, durable storage and thread plumbing live outside
//! the library and drive these pieces.

pub mod error;
pub mod message;
pub mod store;
pub mod mem_store;
pub mod laws;
pub mod codec;
pub mod session;
pub mod client;

pub use error::YakError;
pub use message::{Datum, Operation, Request, Response, SeqNo};
pub use store::{Store, Subscriber};
pub use mem_store::MemStore;
