//! A file-digest daemon library: a memoizing MD5 cache keyed by canonical
//! file paths, the NUL-framed wire protocol its clients speak, directory
//! watch bookkeeping for invalidation, and the daemon lifecycle decisions.
//!
//! File and pipe I/O, OS synchronization objects and process spawning live
//! outside this crate; the library computes every decision and every byte of
//! every message from plain values handed to it.

pub mod bytes;
pub mod cache;
pub mod codec;
pub mod digest;
pub mod lifecycle;
pub mod server;
pub mod watcher;
