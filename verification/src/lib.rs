//! The rules of a robot fleet: who may enrol, what an update job goes through, which
//! artifact is the newest, and what the bytes of a telemetry frame say.

pub mod agent;
pub mod artifact;
pub mod device;
pub mod keyed;
pub mod ota;
pub mod pki;
pub mod scan;
pub mod selection;
pub mod sources;
pub mod status;
pub mod text;
