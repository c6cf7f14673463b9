//! Errors of Verilog generation.

use vstd::prelude::*;

verus! {

/// File system error, as the standard library reports it.
#[verifier::external_type_specification]
#[verifier::external_body]
pub struct ExIoError(std::io::Error);

/// Virgen Error
#[derive(Debug)]
pub enum VirgenError {
    /// File system error
    Fs {
        /// error
        err: std::io::Error,
    },

    /// Collect FSM error
    CollectFsmError {
        /// Error message
        msg: String,
    },

    /// Port generation error
    PortGenerationError {
        /// Error message
        msg: String,
    },

    /// Miscellaneous error
    Misc {
        /// Error message
        msg: String,
    },

    /// Signature error
    InvalidSignature {
        /// Error message
        msg: String,
    },

    /// Analysis error
    AnalysisError {
        /// Error message
        msg: String,
    },
}

impl VirgenError {
    /// Collect fsm error
    pub fn collect_fsm_error(msg: String) -> (r: Self)
        ensures
            r == (VirgenError::CollectFsmError { msg }),
    {
        VirgenError::CollectFsmError { msg }
    }
}

} // verus!
