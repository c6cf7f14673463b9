//! Utilities.

pub mod attributes;
pub mod math;
pub mod string;
