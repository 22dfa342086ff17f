//! Langton's ant as characters, and the ant that turns the other way.

pub mod lant;
pub mod visualisation;
