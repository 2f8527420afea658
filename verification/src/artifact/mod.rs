//! The artifact store: which firmware was published, and which one is the newest.

pub mod error;
pub mod registry;
pub mod server;
pub mod storage;
