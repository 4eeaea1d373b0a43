//! A hot-reloading asset cache.
//!
//! The library keeps loadable resources addressable by a logical id and by
//! the source file path they were loaded from, detects out-of-band file
//! modifications through a stale-path buffer fed by a filesystem observer,
//! and reloads affected resources in place while notifying subscribers,
//! without invalidating handles already held by consumers.

pub mod assets;
pub mod graphics;
pub mod handle;
pub mod manager;
pub mod paths;
pub mod watcher;
