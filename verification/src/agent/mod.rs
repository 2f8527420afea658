//! The agent on the robot: frames from the simulator, heartbeats, updates, credentials.

pub mod backoff;
pub mod credentials;
pub mod enrollment;
pub mod error;
pub mod heartbeat;
pub mod ota;
pub mod provisioning;
pub mod telemetry;
