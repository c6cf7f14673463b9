//! Verilog IR and the passes over it.

pub mod analysis;
pub mod integrate;
pub mod ir;
pub mod opt;
pub mod utils;
