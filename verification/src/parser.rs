//! Parsing of pipeline definitions: retry conditions and failure strategies
//! written as text, and the checks run on a freshly parsed pipeline.
use vstd::prelude::*;
use crate::config::{FailureStrategy, RetryCondition};
use crate::error::{concat3, concat5, is_dependency_error, is_parse_error, PipelineError};
use crate::step::{Pipeline, PipelineStep};
use crate::text::{
    all_ascii, ascii_lower, parse_i32, parse_i32_spec, seq_starts_with, str_eq, str_lowercase, str_starts_with,
    to_lowercase_string,
};
use crate::validator::{has_step_named, missing_dependency, name_repeated};

verus! {

/// Decimal digits of a number, without sign or leading zeros.
pub open spec fn decimal(n: nat) -> Seq<char>
    decreases n,
{
    if n < 10 {
        seq![digit_char(n)]
    } else {
        decimal(n / 10) + seq![digit_char(n % 10)]
    }
}

/// The character of a decimal digit.
pub open spec fn digit_char(d: nat) -> char {
    if d == 0 {
        '0'
    } else if d == 1 {
        '1'
    } else if d == 2 {
        '2'
    } else if d == 3 {
        '3'
    } else if d == 4 {
        '4'
    } else if d == 5 {
        '5'
    } else if d == 6 {
        '6'
    } else if d == 7 {
        '7'
    } else if d == 8 {
        '8'
    } else {
        '9'
    }
}

fn digit_str(d: u64) -> (r: &'static str)
    requires
        d < 10,
    ensures
        r@ == seq![digit_char(d as nat)],
{
    proof {
        reveal_strlit("0");
        reveal_strlit("1");
        reveal_strlit("2");
        reveal_strlit("3");
        reveal_strlit("4");
        reveal_strlit("5");
        reveal_strlit("6");
        reveal_strlit("7");
        reveal_strlit("8");
        reveal_strlit("9");
    }
    if d == 0 {
        "0"
    } else if d == 1 {
        "1"
    } else if d == 2 {
        "2"
    } else if d == 3 {
        "3"
    } else if d == 4 {
        "4"
    } else if d == 5 {
        "5"
    } else if d == 6 {
        "6"
    } else if d == 7 {
        "7"
    } else if d == 8 {
        "8"
    } else {
        "9"
    }
}

/// The decimal text of a number.
pub fn decimal_string(n: u64) -> (r: String)
    ensures
        r@ == decimal(n as nat),
    decreases n,
{
    if n < 10 {
        digit_str(n).to_owned()
    } else {
        let mut s = decimal_string(n / 10);
        s.append(digit_str(n % 10));
        s
    }
}

/// What parsing the retry condition `s`, whose lower-case form is `lower`,
/// gives: `any`/`any_failure` and `timeout` (in any case), `exit_code:N`,
/// `error:PATTERN`, and otherwise a Lua condition holding the whole text.
pub open spec fn retry_condition_parsed(s: Seq<char>, lower: Seq<char>, r: Result<RetryCondition, PipelineError>) -> bool {
    if lower == "any"@ || lower == "any_failure"@ {
        r matches Ok(RetryCondition::AnyFailure)
    } else if lower == "timeout"@ {
        r matches Ok(RetryCondition::Timeout)
    } else if seq_starts_with(s, "exit_code:"@) {
        let code = s.subrange(10, s.len() as int);
        match parse_i32_spec(code) {
            Some(c) => r matches Ok(RetryCondition::ExitCodes(v)) && v@ == seq![c],
            None => r matches Err(e) && is_parse_error(e, "Invalid exit code: "@ + code),
        }
    } else if seq_starts_with(s, "error:"@) {
        r matches Ok(RetryCondition::ErrorPattern(p)) && p@ == s.subrange(6, s.len() as int)
    } else {
        r matches Ok(RetryCondition::LuaCondition(p)) && p@ == s
    }
}

/// The failure strategy named by `s`, whose lower-case form is `lower`:
/// `fail_fast`, `continue_on_failure`, `critical_only` (in any case), and
/// otherwise a custom strategy holding the whole text.
pub open spec fn failure_strategy_parsed(s: Seq<char>, lower: Seq<char>, r: FailureStrategy) -> bool {
    if lower == "fail_fast"@ {
        r is FailFast
    } else if lower == "continue_on_failure"@ {
        r is ContinueOnFailure
    } else if lower == "critical_only"@ {
        r is CriticalOnly
    } else {
        r matches FailureStrategy::Custom(c) && c@ == s
    }
}

/// First step from position `i` on whose name repeats an earlier one.
pub open spec fn repeated_name_from(steps: Seq<PipelineStep>, i: int) -> Option<Seq<char>>
    decreases steps.len() - i,
{
    if i < 0 || i >= steps.len() {
        None
    } else if name_repeated(steps, i) {
        Some(steps[i].name@)
    } else {
        repeated_name_from(steps, i + 1)
    }
}

/// First dependency on a missing step, among the steps from position `i` on:
/// the step's name and the dependency.
pub open spec fn missing_dependency_from(steps: Seq<PipelineStep>, i: int) -> Option<(Seq<char>, Seq<char>)>
    decreases steps.len() - i,
{
    if i < 0 || i >= steps.len() {
        None
    } else {
        match missing_dependency(steps, steps[i].depends_on@, 0) {
            Some(d) => Some((steps[i].name@, d)),
            None => missing_dependency_from(steps, i + 1),
        }
    }
}

/// First step from position `i` on without an action.
pub open spec fn actionless_from(steps: Seq<PipelineStep>, i: int) -> Option<Seq<char>>
    decreases steps.len() - i,
{
    if i < 0 || i >= steps.len() {
        None
    } else if steps[i].action is None {
        Some(steps[i].name@)
    } else {
        actionless_from(steps, i + 1)
    }
}

/// What checking a freshly parsed pipeline gives: it needs a step, distinct
/// step names, dependencies on existing steps and an action for every step,
/// checked in that order.
pub open spec fn parsed_pipeline_checked(p: Pipeline, r: Result<(), PipelineError>) -> bool {
    let steps = p.steps@;
    if steps.len() == 0 {
        r matches Err(e) && is_parse_error(e, "Pipeline must have at least one step"@)
    } else if repeated_name_from(steps, 0) is Some {
        r matches Err(e) && is_parse_error(
            e,
            "Duplicate step name: '"@ + repeated_name_from(steps, 0)->0 + "'"@,
        )
    } else if missing_dependency_from(steps, 0) is Some {
        let (s, d) = missing_dependency_from(steps, 0)->0;
        r matches Err(e) && is_dependency_error(
            e,
            "Step '"@ + s + "' depends on non-existent step '"@ + d + "'"@,
        )
    } else if actionless_from(steps, 0) is Some {
        r matches Err(e) && is_parse_error(
            e,
            "Step '"@ + actionless_from(steps, 0)->0 + "' has no action defined"@,
        )
    } else {
        r is Ok
    }
}

/// Turns pipeline definitions into pipelines.
pub struct PipelineParser;

impl PipelineParser {
    /// The retry condition written as `condition_str`, whose lower-case form
    /// is `lowered`.
    pub fn retry_condition_from(condition_str: &str, lowered: &str) -> (r: Result<RetryCondition, PipelineError>)
        ensures
            retry_condition_parsed(condition_str@, lowered@, r),
    {
        if str_eq(lowered, "any") || str_eq(lowered, "any_failure") {
            Ok(RetryCondition::AnyFailure)
        } else if str_eq(lowered, "timeout") {
            Ok(RetryCondition::Timeout)
        } else if str_starts_with(condition_str, "exit_code:") {
            proof {
                reveal_strlit("exit_code:");
            }
            let n = condition_str.unicode_len();
            let code_str = condition_str.substring_char(10, n);
            match parse_i32(code_str) {
                Some(code) => {
                    let mut codes: Vec<i32> = Vec::new();
                    codes.push(code);
                    Ok(RetryCondition::ExitCodes(codes))
                },
                None => {
                    let mut m = "Invalid exit code: ".to_owned();
                    m.append(code_str);
                    Err(PipelineError::ParseError(m))
                },
            }
        } else if str_starts_with(condition_str, "error:") {
            proof {
                reveal_strlit("error:");
            }
            let n = condition_str.unicode_len();
            let pattern = condition_str.substring_char(6, n);
            Ok(RetryCondition::ErrorPattern(pattern.to_owned()))
        } else {
            Ok(RetryCondition::LuaCondition(condition_str.to_owned()))
        }
    }

    /// Parses a retry condition written as text; the keywords are matched
    /// ignoring case.
    pub fn parse_retry_condition(condition_str: &str) -> (r: Result<RetryCondition, PipelineError>)
        ensures
            retry_condition_parsed(condition_str@, str_lowercase(condition_str@), r),
            all_ascii(condition_str@) ==> retry_condition_parsed(condition_str@, ascii_lower(condition_str@), r),
    {
        let lowered = to_lowercase_string(condition_str);
        Self::retry_condition_from(condition_str, lowered.as_str())
    }

    /// The failure strategy written as `strategy_str`, whose lower-case form
    /// is `lowered`.
    pub fn failure_strategy_from(strategy_str: &str, lowered: &str) -> (r: FailureStrategy)
        ensures
            failure_strategy_parsed(strategy_str@, lowered@, r),
    {
        if str_eq(lowered, "fail_fast") {
            FailureStrategy::FailFast
        } else if str_eq(lowered, "continue_on_failure") {
            FailureStrategy::ContinueOnFailure
        } else if str_eq(lowered, "critical_only") {
            FailureStrategy::CriticalOnly
        } else {
            FailureStrategy::Custom(strategy_str.to_owned())
        }
    }

    /// Parses a failure strategy written as text, ignoring case; any other
    /// text names a custom strategy.
    pub fn parse_failure_strategy(strategy_str: &str) -> (r: Result<FailureStrategy, PipelineError>)
        ensures
            r matches Ok(f) && failure_strategy_parsed(strategy_str@, str_lowercase(strategy_str@), f),
            all_ascii(strategy_str@) ==> (r matches Ok(f) && failure_strategy_parsed(
                strategy_str@,
                ascii_lower(strategy_str@),
                f,
            )),
    {
        let lowered = to_lowercase_string(strategy_str);
        Ok(Self::failure_strategy_from(strategy_str, lowered.as_str()))
    }

    /// Checks a freshly parsed pipeline: it has a step, its step names are
    /// distinct, every dependency names a step, and every step has an action.
    pub fn validate_parsed_pipeline(pipeline: &Pipeline) -> (r: Result<(), PipelineError>)
        ensures
            parsed_pipeline_checked(*pipeline, r),
    {
        let steps = &pipeline.steps;
        if steps.len() == 0 {
            return Err(PipelineError::ParseError("Pipeline must have at least one step".to_owned()));
        }
        let mut i: usize = 0;
        while i < steps.len()
            invariant
                steps == &pipeline.steps,
                steps@.len() > 0,
                i <= steps@.len(),
                repeated_name_from(steps@, 0) == repeated_name_from(steps@, i as int),
            decreases steps@.len() - i,
        {
            let name = steps[i].name.as_str();
            let mut j: usize = 0;
            while j < i
                invariant
                    steps == &pipeline.steps,
                    steps@.len() > 0,
                    repeated_name_from(steps@, 0) == repeated_name_from(steps@, i as int),
                    i < steps@.len(),
                    j <= i,
                    name@ == steps@[i as int].name@,
                    forall|l: int| 0 <= l < j ==> steps@[l].name@ != steps@[i as int].name@,
                decreases i - j,
            {
                if str_eq(steps[j].name.as_str(), name) {
                    assert(name_repeated(steps@, i as int));
                    return Err(PipelineError::ParseError(concat3("Duplicate step name: '", name, "'")));
                }
                j = j + 1;
            }
            i = i + 1;
        }
        let mut i: usize = 0;
        while i < steps.len()
            invariant
                steps == &pipeline.steps,
                steps@.len() > 0,
                repeated_name_from(steps@, 0) is None,
                i <= steps@.len(),
                missing_dependency_from(steps@, 0) == missing_dependency_from(steps@, i as int),
            decreases steps@.len() - i,
        {
            let step = &steps[i];
            let deps = &step.depends_on;
            let mut k: usize = 0;
            while k < deps.len()
                invariant
                    steps == &pipeline.steps,
                    steps@.len() > 0,
                    repeated_name_from(steps@, 0) is None,
                    missing_dependency_from(steps@, 0) == missing_dependency_from(steps@, i as int),
                    i < steps@.len(),
                    step == &steps@[i as int],
                    deps == &step.depends_on,
                    k <= deps@.len(),
                    missing_dependency(steps@, deps@, 0) == missing_dependency(steps@, deps@, k as int),
                decreases deps@.len() - k,
            {
                if !has_step(steps.as_slice(), deps[k].as_str()) {
                    return Err(
                        PipelineError::DependencyError(
                            concat5(
                                "Step '",
                                step.name.as_str(),
                                "' depends on non-existent step '",
                                deps[k].as_str(),
                                "'",
                            ),
                        ),
                    );
                }
                k = k + 1;
            }
            i = i + 1;
        }
        let mut i: usize = 0;
        while i < steps.len()
            invariant
                steps == &pipeline.steps,
                steps@.len() > 0,
                repeated_name_from(steps@, 0) is None,
                missing_dependency_from(steps@, 0) is None,
                i <= steps@.len(),
                actionless_from(steps@, 0) == actionless_from(steps@, i as int),
            decreases steps@.len() - i,
        {
            if steps[i].action.is_none() {
                return Err(
                    PipelineError::ParseError(
                        concat3("Step '", steps[i].name.as_str(), "' has no action defined"),
                    ),
                );
            }
            i = i + 1;
        }
        Ok(())
    }
}

/// Whether some step carries the name `n`.
fn has_step(steps: &[PipelineStep], n: &str) -> (r: bool)
    ensures
        r == has_step_named(steps@, n@),
{
    let mut j: usize = 0;
    while j < steps.len()
        invariant
            j <= steps@.len(),
            forall|l: int| 0 <= l < j ==> (#[trigger] steps@[l]).name@ != n@,
        decreases steps@.len() - j,
    {
        if str_eq(steps[j].name.as_str(), n) {
            return true;
        }
        j = j + 1;
    }
    false
}

} // verus!
