//! An embedded, append-only event log.
//!
//! The library holds what the log decides and computes: what a valid event is
//! and what the store stamps on it, how an old event reads now, what a read
//! selects and the statements that select it, what a write puts into its
//! transaction, what retention may remove and what it writes down, and what a
//! caller's own SQL may do. The connections, the threads and the waiting are
//! left to the program around it.

pub mod append;
pub mod backup;
pub mod catalog;
pub mod error;
pub mod event;
pub mod hatch;
pub mod json;
pub mod log;
pub mod mem;
pub mod options;
pub mod page;
pub mod params;
pub mod position;
pub mod project;
pub mod read;
pub mod retention;
pub mod row;
pub mod schema;
pub mod shared;
pub mod sql;
pub mod store;
pub mod text;
pub mod trace;
pub mod transfer;
pub mod upcast;

pub use crate::error::Error;
pub use crate::event::{validate, CURRENT_SCHEMA_VERSION};
pub use crate::log::Filter;
pub use crate::mem::MemEventStore;
pub use crate::position::{Committed, Position};
pub use crate::read::Recorded;
pub use crate::transfer::{ExportedEvent, ImportReport};
pub use crate::upcast::{Current, UpcastChain, Upcaster};
