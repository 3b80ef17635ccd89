//! Backend core of a desktop font-browsing application.
//!
//! The library enumerates font metadata parsed from file names, caches the
//! result behind a lazily loaded in-memory index with paged access, builds
//! changelog text, and decides the outcome of an application update check.
//! All filesystem and network traffic stays outside: callers hand in what
//! they scanned or received, and the library computes from plain values.

pub mod cache;
pub mod changelog;
mod clock;
pub mod font;
pub mod update;
pub mod version;
