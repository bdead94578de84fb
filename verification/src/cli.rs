//! The data carried by a command-line invocation, as plain values.
//! Parsing the actual command line, and the filesystem paths behind
//! the `path` fields, belong to the host around this library.

use vstd::prelude::*;

verus! {

/// One parsed invocation: the subcommand to perform.
pub struct CliArgs {
    pub command: Commands,
}

/// The available subcommands.
pub enum Commands {
    /// Compile a source file into the given target.
    Compile(CompileArgs),
    /// Run a source file.
    Run(RunArgs),
    /// Test a source file.
    Test(TestArgs),
}

/// What a compilation request carries.
#[derive(Clone, Debug)]
pub struct CompileArgs {
    pub path: String,
    pub emit: String,
    pub no_optimize: bool,
    pub debug: bool,
}

/// What a run request carries.
#[derive(Clone)]
pub struct RunArgs {
    pub path: String,
    pub debug: bool,
}

/// What a test request carries.
#[derive(Clone)]
pub struct TestArgs {
    pub path: String,
    pub debug: bool,
}

} // verus!
