//! The log and the mathematical model its contracts are stated over.

pub mod log;
pub mod model;
