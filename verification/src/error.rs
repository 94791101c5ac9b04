//! Errors of pipeline operations.
use vstd::prelude::*;
use vstd::string::*;
use crate::parser::{decimal, decimal_string};

verus! {

/// The error type of the embedded Lua interpreter, carried unchanged.
#[verifier::external_type_specification]
#[verifier::external_body]
pub struct ExLuaError(mlua::Error);

/// Errors that can occur during pipeline operations.
#[derive(Debug)]
pub enum PipelineError {
    /// The pipeline description could not be parsed or is malformed.
    ParseError(String),
    /// A step failed.
    StepError { step: String, reason: String },
    /// The dependencies between steps form a cycle.
    DependencyCycle,
    /// The pipeline ran out of time.
    Timeout { seconds: u64 },
    /// A step names a dependency that is wrong.
    DependencyError(String),
    /// The Lua interpreter reported an error.
    LuaError(mlua::Error),
    /// Parallel execution failed.
    ParallelError(String),
    /// A configuration value is invalid.
    ConfigError(String),
    /// A system-level failure.
    SystemError(String),
}

/// `e` is a parse error with message `m`.
pub open spec fn is_parse_error(e: PipelineError, m: Seq<char>) -> bool {
    e matches PipelineError::ParseError(s) && s@ == m
}

/// `e` is a dependency error with message `m`.
pub open spec fn is_dependency_error(e: PipelineError, m: Seq<char>) -> bool {
    e matches PipelineError::DependencyError(s) && s@ == m
}

/// `e` is a configuration error with message `m`.
pub open spec fn is_config_error(e: PipelineError, m: Seq<char>) -> bool {
    e matches PipelineError::ConfigError(s) && s@ == m
}

/// `e` is a step error for step `step` with reason `reason`.
pub open spec fn is_step_error(e: PipelineError, step: Seq<char>, reason: Seq<char>) -> bool {
    e matches PipelineError::StepError { step: s, reason: r } && s@ == step && r@ == reason
}

/// Concatenation of two pieces of text.
pub fn concat2(a: &str, b: &str) -> (r: String)
    ensures
        r@ == a@ + b@,
{
    let mut s = a.to_owned();
    s.append(b);
    s
}

/// Concatenation of three pieces of text.
pub fn concat3(a: &str, b: &str, c: &str) -> (r: String)
    ensures
        r@ == a@ + b@ + c@,
{
    let mut s = a.to_owned();
    s.append(b);
    s.append(c);
    s
}

/// Concatenation of five pieces of text.
pub fn concat5(a: &str, b: &str, c: &str, d: &str, e: &str) -> (r: String)
    ensures
        r@ == a@ + b@ + c@ + d@ + e@,
{
    let mut s = a.to_owned();
    s.append(b);
    s.append(c);
    s.append(d);
    s.append(e);
    s
}


/// The text of an error of the Lua interpreter, as its `Display` writes it.
/// Nothing is stated of it: the text is the interpreter's.
#[verifier::external_body]
pub(crate) fn lua_error_text(e: &mlua::Error) -> (r: String) {
    e.to_string()
}

/// The message of an error, other than one of the Lua interpreter, whose
/// text comes from the interpreter.
pub open spec fn error_message(e: PipelineError) -> Seq<char> {
    match e {
        PipelineError::ParseError(s) => "Pipeline parsing error: "@ + s@,
        PipelineError::StepError { step, reason } => "Step execution failed: "@ + step@ + " - "@
            + reason@,
        PipelineError::DependencyCycle => "Dependency cycle detected in pipeline steps"@,
        PipelineError::Timeout { seconds } => "Pipeline timeout after "@ + decimal(seconds as nat)
            + " seconds"@,
        PipelineError::DependencyError(s) => "Step dependency error: "@ + s@,
        PipelineError::LuaError(_) => "Lua execution error: "@,
        PipelineError::ParallelError(s) => "Parallel execution error: "@ + s@,
        PipelineError::ConfigError(s) => "Configuration error: "@ + s@,
        PipelineError::SystemError(s) => "System error: "@ + s@,
    }
}

impl PipelineError {
    /// The error's message.  For an error of the Lua interpreter it is
    /// `Lua execution error: ` followed by the interpreter's own text.
    pub fn message(&self) -> (r: String)
        ensures
            self is LuaError ==> exists|t: Seq<char>| r@ == error_message(*self) + t,
            !(self is LuaError) ==> r@ == error_message(*self),
    {
        match self {
            PipelineError::ParseError(s) => concat2("Pipeline parsing error: ", s.as_str()),
            PipelineError::StepError { step, reason } => {
                let head = concat3("Step execution failed: ", step.as_str(), " - ");
                concat2(head.as_str(), reason.as_str())
            },
            PipelineError::DependencyCycle => "Dependency cycle detected in pipeline steps".to_owned(),
            PipelineError::Timeout { seconds } => {
                let n = decimal_string(*seconds);
                concat3("Pipeline timeout after ", n.as_str(), " seconds")
            },
            PipelineError::DependencyError(s) => concat2("Step dependency error: ", s.as_str()),
            PipelineError::LuaError(e) => {
                let t = lua_error_text(e);
                let r = concat2("Lua execution error: ", t.as_str());
                assert(r@ == error_message(*self) + t@);
                r
            },
            PipelineError::ParallelError(s) => concat2("Parallel execution error: ", s.as_str()),
            PipelineError::ConfigError(s) => concat2("Configuration error: ", s.as_str()),
            PipelineError::SystemError(s) => concat2("System error: ", s.as_str()),
        }
    }
}

} // verus!
