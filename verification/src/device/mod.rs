//! The device-management service: who is known, who may enrol, who is alive.

pub mod enrollment;
pub mod error;
pub mod heartbeat;
pub mod laws;
pub mod manifest;
pub mod provisioning;
pub mod server;
pub mod store;
pub mod telemetry;
