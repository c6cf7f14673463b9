//! Compiler.

pub mod codegen;
pub mod comparison;
pub mod endpoint;
pub mod error;
pub mod expr;
pub mod expr_gen;
pub mod interface;
pub mod literal;
pub mod module_graph;
pub mod module_wiring;
pub mod naming;
pub mod ops;
pub mod ports;
pub mod primitives;
pub mod prelude;
pub mod seq_wiring;
pub mod system_task;
pub mod virgen;
pub mod wiring;

use vstd::prelude::*;

use crate::compiler::error::VirgenError;
use crate::utils::string::{chars_of, contains_chars, contains_seq};
use crate::vir::analysis::detect_comb_loop::{comb_loop_result, detect_comb_loop, g_module};
use crate::vir::ir::Module;

verus! {

/// A path of the file system, as the standard library holds it.
#[verifier::external_type_specification]
#[verifier::external_body]
pub struct ExPathBuf(std::path::PathBuf);

/// Hazardflow Compiler Options
#[derive(Debug)]
pub struct Options {
    /// Output Directory
    pub build_dir: std::path::PathBuf,

    /// Compiles system task such as `$fdisplay` or `assert` in generated Verilog
    pub system_task: bool,

    /// Performs wire-cache optimiation
    pub wire_cache: bool,

    /// Performs deadcode elimination
    pub deadcode: bool,

    /// Performs always-block inlining
    pub inline_always: bool,

    /// Integrates into a top module
    pub integrate: bool,

    /// Detects combinational loops in the integrated module
    pub detect_comb_loop: bool,

    /// Compiler Targets
    pub target: CompileTarget,

    /// Merge all modules into a single file
    pub merge: bool,
}

/// Compile Target Specifier
#[derive(Debug, Clone)]
pub enum CompileTarget {
    /// Compile all synthesizable modules
    All,

    /// Compile modules that matches the given patterns
    FilterBy(Vec<String>),
}

/// Whether `path` holds one of the patterns.
pub open spec fn holds_pattern(path: Seq<char>, patterns: Seq<String>) -> bool
    decreases patterns.len(),
{
    patterns.len() > 0 && (holds_pattern(path, patterns.drop_last()) || contains_seq(path, patterns.last()@))
}

/// Whether a module at `path` is compiled for `target`: every module for
/// `All`, and those whose path holds one of the patterns for `FilterBy`.
pub open spec fn should_compile_spec(target: CompileTarget, path: Seq<char>) -> bool {
    match target {
        CompileTarget::All => true,
        CompileTarget::FilterBy(patterns) => holds_pattern(path, patterns@),
    }
}

impl CompileTarget {
    /// Checks if the given path data should be allowed.
    pub fn should_compile(&self, path_str: &str) -> (r: bool)
        ensures
            r == should_compile_spec(*self, path_str@),
    {
        match self {
            CompileTarget::All => true,
            CompileTarget::FilterBy(patterns) => {
                let path = chars_of(path_str);
                let mut i: usize = 0;
                while i < patterns.len()
                    invariant
                        i <= patterns.len(),
                        path@ == path_str@,
                        *self == CompileTarget::FilterBy(*patterns),
                        !holds_pattern(path_str@, patterns@.take(i as int)),
                    decreases patterns.len() - i,
                {
                    let p = chars_of(patterns[i].as_str());
                    let found = contains_chars(&path, &p);
                    proof {
                        assert(patterns@.take(i + 1).drop_last() =~= patterns@.take(i as int));
                        assert(patterns@.take(i + 1).last() == patterns@[i as int]);
                        if found {
                            lemma_holds_pattern_prefix(path_str@, patterns@, i + 1);
                        }
                    }
                    if found {
                        return true;
                    }
                    i += 1;
                }
                assert(patterns@.take(patterns.len() as int) =~= patterns@);
                false
            },
        }
    }
}

/// Hazardflow Compiler
#[derive(Debug)]
pub struct Compiler {
    /// Compiler Options
    pub options: Options,
}

impl Compiler {
    /// Build new compiler callback.
    pub fn new(options: Options) -> (r: Self)
        ensures
            r.options == options,
    {
        Self { options }
    }
}

/// A path that holds one of the first patterns holds one of them all.
pub proof fn lemma_holds_pattern_prefix(path: Seq<char>, patterns: Seq<String>, k: int)
    requires
        0 <= k <= patterns.len(),
        holds_pattern(path, patterns.take(k)),
    ensures
        holds_pattern(path, patterns),
    decreases patterns.len() - k,
{
    if k == patterns.len() {
        assert(patterns.take(k) =~= patterns);
    } else {
        assert(patterns.take(k + 1).drop_last() =~= patterns.take(k));
        lemma_holds_pattern_prefix(path, patterns, k + 1);
    }
}

/// Runs the analyses that the options select on a generated module: the detection of
/// combinational loops, which needs the modules integrated into one.
pub fn analyze(options: &Options, vir_module: &Module) -> (r: Result<(), VirgenError>)
    requires
        options.detect_comb_loop ==> options.integrate && !(g_module(vir_module@) is Stuck),
    ensures
        options.detect_comb_loop ==> comb_loop_result(vir_module@, r),
        !options.detect_comb_loop ==> r is Ok,
{
    if options.detect_comb_loop {
        detect_comb_loop(vir_module)
    } else {
        Ok(())
    }
}

} // verus!
