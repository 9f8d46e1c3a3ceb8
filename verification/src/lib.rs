//! Verified core of a keystroke-session recorder.
//!
//! A stream of key events is folded into per-application typing sessions
//! (`aggregator`), committed as durable records through an embedded SQLite
//! store (`store`), and read back through filtered queries and daily
//! aggregate statistics. Settings (exclusion list, merge interval,
//! auto-start) persist in the same store (`settings`). The `engine` module
//! ties the aggregator to the store. Platform key hooks, window inspection
//! and thread plumbing live outside the library.

pub mod clock;
pub mod engine;
pub mod models;
pub mod aggregator;
pub mod keys;
pub mod query;
pub mod settings;
pub mod stats;
pub mod store;
pub mod text;
pub mod window;
