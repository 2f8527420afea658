//! Certificates: issuing them, reading them, and checking who signed them.

pub mod csr;
pub mod der;
pub mod error;
pub mod laws;
pub mod mtls;
