//! Rules of the command-line runner for `jobs` scripts: how a job and a
//! step are run, and the environment their commands see.
use vstd::prelude::*;
use crate::strmap::{pairs_map, StrMap};

verus! {

/// How a job runs.
#[derive(Debug, Clone, Copy, PartialEq, Eq, Structural)]
pub enum JobKind {
    /// Its `steps` array, step by step.
    Steps,
    /// Its `run` function.
    RunFunction,
    /// Its `run` command line.
    RunCommand,
    /// None of these: it is reported and passed over.
    Unsupported,
}

/// How a step of a job runs.
#[derive(Debug, Clone, Copy, PartialEq, Eq, Structural)]
pub enum StepKind {
    /// Its `run` function.
    RunFunction,
    /// Its `run` command line.
    RunCommand,
    /// Neither: it is reported and passed over.
    Unsupported,
}

/// A job with a `steps` array runs it; otherwise a `run` function, then a
/// `run` command line, is used.
pub fn job_kind(has_steps: bool, has_run_function: bool, has_run_command: bool) -> (r: JobKind)
    ensures
        r == if has_steps {
            JobKind::Steps
        } else if has_run_function {
            JobKind::RunFunction
        } else if has_run_command {
            JobKind::RunCommand
        } else {
            JobKind::Unsupported
        },
{
    if has_steps {
        JobKind::Steps
    } else if has_run_function {
        JobKind::RunFunction
    } else if has_run_command {
        JobKind::RunCommand
    } else {
        JobKind::Unsupported
    }
}

/// A step runs its `run` function, or else its `run` command line.
pub fn step_kind(has_run_function: bool, has_run_command: bool) -> (r: StepKind)
    ensures
        r == if has_run_function {
            StepKind::RunFunction
        } else if has_run_command {
            StepKind::RunCommand
        } else {
            StepKind::Unsupported
        },
{
    if has_run_function {
        StepKind::RunFunction
    } else if has_run_command {
        StepKind::RunCommand
    } else {
        StepKind::Unsupported
    }
}

/// The environment of a run: the process's variables, overridden by the
/// pipeline's `env` entries, later entries winning.
pub fn runtime_environment(process_env: Vec<(String, String)>, pipeline_env: Vec<(String, String)>) -> (r: StrMap<String>)
    ensures
        r@ == pairs_map(process_env@ + pipeline_env@),
{
    let mut all = process_env;
    let mut extra = pipeline_env;
    all.append(&mut extra);
    StrMap::from_pairs(all)
}

} // verus!
