//! The update service: which job a device has, and who is told about it.

pub mod dispatcher;
pub mod error;
pub mod laws;
pub mod server;
pub mod store;
