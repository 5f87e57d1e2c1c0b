//! Collects block signatures from several archive sources and keeps a
//! per-source cursor of how far each one has been synced.

pub mod block_url;
pub mod driver;
pub mod error;
pub mod pass;
pub mod reconcile;
pub mod watcher;
