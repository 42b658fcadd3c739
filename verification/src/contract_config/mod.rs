//! Inspection of `contracts.config.json` peer-authority declarations.
pub mod model;
pub mod peers;
pub mod laws;
