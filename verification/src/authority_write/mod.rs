//! Protection of authored contract sources against writes by automation.
pub mod model;
pub mod sources;
pub mod audit;
pub mod laws;
