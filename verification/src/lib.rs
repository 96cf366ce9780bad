//! Core of a local, file-backed task tracker.
//!
//! Each task is a markdown document with a structured header, stored under a
//! directory named after its status; the status itself is derived from the
//! file's location and never stored in the file. This crate owns the task
//! document model and its round-trip-safe serialization, identifier
//! generation and prefix resolution, and the store's state machine over an
//! in-memory image of the directory tree. All filesystem traffic stays with
//! the caller, which mirrors the store's reported effects onto disk.
pub mod chars;
pub mod config;
pub mod format;
pub mod id;
pub mod prefix;
pub mod store;
pub mod task;
pub mod term;
pub mod time;

pub use config::Config;
pub use id::TaskId;
pub use prefix::PrefixResolver;
pub use store::Store;
pub use store::StoreError;
pub use task::Priority;
pub use task::Status;
pub use task::Task;
pub use time::Timestamp;
