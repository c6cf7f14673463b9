//! Analyses.

pub mod detect_comb_loop;
