//! HazardFlow compiler core: types of hardware interfaces and values, Verilog
//! generation helpers and Verilog IR passes.

pub mod compiler;
pub mod utils;
pub mod vir;
