//! Optimizations.

pub mod inline_always;
pub mod inline_meaning;
