//! The test plan: what a run is told to do.

pub mod model;
pub mod validation;
