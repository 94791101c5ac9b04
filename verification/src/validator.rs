//! Pipeline validation, dependency ordering and readiness queries.
use vstd::prelude::*;
use crate::error::{concat3, concat5, is_config_error, is_dependency_error, is_parse_error, PipelineError};
use crate::graph::{dependencies_acyclic, is_topological_order, DependencyGraph};
use crate::step::{
    collect_steps, contains_name, depends_on_name, lists_selected, names_contain, select_steps, Pipeline,
    PipelineStep,
};
use crate::text::{is_blank, is_blank_seq, str_eq};

verus! {

/// The first problem found while validating a pipeline.
pub enum Issue {
    /// Reported as a parse error with this message.
    Parse(Seq<char>),
    /// Reported as a dependency error with this message.
    Dependency(Seq<char>),
    /// Reported as a dependency cycle.
    Cycle,
    /// Reported as a configuration error with this message.
    Config(Seq<char>),
}

/// `e` is the error that reports `i`.
pub open spec fn error_matches(e: PipelineError, i: Issue) -> bool {
    match i {
        Issue::Parse(m) => is_parse_error(e, m),
        Issue::Dependency(m) => is_dependency_error(e, m),
        Issue::Cycle => e is DependencyCycle,
        Issue::Config(m) => is_config_error(e, m),
    }
}

/// `r` succeeds when there is no issue and otherwise reports the issue.
pub open spec fn result_matches(r: Result<(), PipelineError>, o: Option<Issue>) -> bool {
    match o {
        None => r is Ok,
        Some(i) => r matches Err(e) && error_matches(e, i),
    }
}

/// Some earlier step (before `i`) has the same name as step `i`.
pub open spec fn name_repeated(steps: Seq<PipelineStep>, i: int) -> bool {
    exists|j: int| 0 <= j < i && steps[j].name@ == steps[i].name@
}

/// First structural problem among the steps from position `i` on.
pub open spec fn step_structure_issue(steps: Seq<PipelineStep>, i: int) -> Option<Issue>
    decreases steps.len() - i,
{
    if i < 0 || i >= steps.len() {
        None
    } else if is_blank_seq(steps[i].name@) {
        Some(Issue::Parse("Step name cannot be empty"@))
    } else if name_repeated(steps, i) {
        Some(Issue::Parse("Duplicate step name: '"@ + steps[i].name@ + "'"@))
    } else {
        step_structure_issue(steps, i + 1)
    }
}

/// First structural problem of a pipeline: blank name, no steps, a blank or
/// repeated step name.
pub open spec fn structure_issue(p: Pipeline) -> Option<Issue> {
    if is_blank_seq(p.name@) {
        Some(Issue::Parse("Pipeline name cannot be empty"@))
    } else if p.steps@.len() == 0 {
        Some(Issue::Parse("Pipeline must have at least one step"@))
    } else {
        step_structure_issue(p.steps@, 0)
    }
}

/// Some step is named `n`.
pub open spec fn has_step_named(steps: Seq<PipelineStep>, n: Seq<char>) -> bool {
    exists|j: int| 0 <= j < steps.len() && (#[trigger] steps[j]).name@ == n
}

/// First dependency from position `k` on that names no step.
pub open spec fn missing_dependency(steps: Seq<PipelineStep>, deps: Seq<String>, k: int) -> Option<Seq<char>>
    decreases deps.len() - k,
{
    if k < 0 || k >= deps.len() {
        None
    } else if !has_step_named(steps, deps[k]@) {
        Some(deps[k]@)
    } else {
        missing_dependency(steps, deps, k + 1)
    }
}

/// First dependency from position `k` on that repeats an earlier one.
pub open spec fn repeated_dependency(deps: Seq<String>, k: int) -> Option<Seq<char>>
    decreases deps.len() - k,
{
    if k < 0 || k >= deps.len() {
        None
    } else if exists|l: int| 0 <= l < k && deps[l]@ == deps[k]@ {
        Some(deps[k]@)
    } else {
        repeated_dependency(deps, k + 1)
    }
}

/// First dependency problem of one step: a dependency on a missing step, on
/// itself, or a repeated dependency.
pub open spec fn step_dependency_issue(steps: Seq<PipelineStep>, s: PipelineStep) -> Option<Issue> {
    match missing_dependency(steps, s.depends_on@, 0) {
        Some(d) => Some(
            Issue::Dependency("Step '"@ + s.name@ + "' depends on non-existent step '"@ + d + "'"@),
        ),
        None => if names_contain(s.depends_on@, s.name@) {
            Some(Issue::Dependency("Step '"@ + s.name@ + "' cannot depend on itself"@))
        } else {
            match repeated_dependency(s.depends_on@, 0) {
                Some(d) => Some(
                    Issue::Dependency("Step '"@ + s.name@ + "' has duplicate dependency '"@ + d + "'"@),
                ),
                None => None,
            }
        },
    }
}

/// First dependency problem among the steps from position `i` on.
pub open spec fn dependency_issue_from(steps: Seq<PipelineStep>, i: int) -> Option<Issue>
    decreases steps.len() - i,
{
    if i < 0 || i >= steps.len() {
        None
    } else {
        match step_dependency_issue(steps, steps[i]) {
            Some(x) => Some(x),
            None => dependency_issue_from(steps, i + 1),
        }
    }
}

/// First dependency problem of a pipeline.
pub open spec fn dependency_issue(p: Pipeline) -> Option<Issue> {
    dependency_issue_from(p.steps@, 0)
}

/// Problem with the parallel settings: when parallelism is enabled, the
/// concurrency must be positive and some step must be parallel.
pub open spec fn parallel_issue(p: Pipeline) -> Option<Issue> {
    if p.config.parallel.enabled {
        if p.config.parallel.max_concurrent == 0 {
            Some(
                Issue::Config(
                    "max_concurrent must be greater than 0 when parallel execution is enabled"@,
                ),
            )
        } else if forall|i: int| 0 <= i < p.steps@.len() ==> !(#[trigger] p.steps@[i]).parallel {
            Some(Issue::Config("No steps marked as parallel, but parallel execution is enabled"@))
        } else {
            None
        }
    } else {
        None
    }
}

/// Problem with one step's retry and timeout settings.
pub open spec fn step_config_issue(s: PipelineStep) -> Option<Issue> {
    if s.retry.max_attempts > 0 && s.retry.delay_seconds == 0 {
        Some(Issue::Config("Step '"@ + s.name@ + "' has retry enabled but delay_seconds is 0"@))
    } else if s.retry.max_attempts > 0 && s.retry.exponential_backoff && s.retry.max_delay_seconds
        < s.retry.delay_seconds {
        Some(Issue::Config("Step '"@ + s.name@ + "' has max_delay_seconds less than delay_seconds"@))
    } else if s.timeout_seconds == Some(0u64) {
        Some(Issue::Config("Step '"@ + s.name@ + "' timeout cannot be 0"@))
    } else {
        None
    }
}

/// First step-setting problem among the steps from position `i` on.
pub open spec fn config_issue_from(steps: Seq<PipelineStep>, i: int) -> Option<Issue>
    decreases steps.len() - i,
{
    if i < 0 || i >= steps.len() {
        None
    } else {
        match step_config_issue(steps[i]) {
            Some(x) => Some(x),
            None => config_issue_from(steps, i + 1),
        }
    }
}

/// First step-setting problem of a pipeline.
pub open spec fn config_issue(p: Pipeline) -> Option<Issue> {
    config_issue_from(p.steps@, 0)
}

/// First problem of a pipeline, checking structure, dependencies, cycles,
/// parallel settings and step settings in that order.
pub open spec fn validation_issue(p: Pipeline) -> Option<Issue> {
    if structure_issue(p) is Some {
        structure_issue(p)
    } else if dependency_issue(p) is Some {
        dependency_issue(p)
    } else if !dependencies_acyclic(p.steps@) {
        Some(Issue::Cycle)
    } else if parallel_issue(p) is Some {
        parallel_issue(p)
    } else {
        config_issue(p)
    }
}

/// No step from position `i` on has a timeout of zero when the step settings
/// from there on raise no problem.
proof fn lemma_no_zero_timeout_from(steps: Seq<PipelineStep>, i: int)
    requires
        0 <= i,
        config_issue_from(steps, i) is None,
    ensures
        forall|j: int| i <= j < steps.len() ==> (#[trigger] steps[j]).timeout_seconds != Some(0u64),
    decreases steps.len() - i,
{
    if i < steps.len() {
        lemma_no_zero_timeout_from(steps, i + 1);
    }
}

/// Law: a pipeline whose step settings pass (`validate_step_configs` returns
/// `Ok`) has no step with a timeout of zero.
pub proof fn law_step_configs_forbid_zero_timeout(p: Pipeline)
    requires
        config_issue(p) is None,
    ensures
        forall|j: int| 0 <= j < p.steps@.len() ==> (#[trigger] p.steps@[j]).timeout_seconds != Some(0u64),
{
    lemma_no_zero_timeout_from(p.steps@, 0);
}

/// Law: a pipeline that validates (`validate` returns `Ok`) has no step with
/// a timeout of zero: every step's timeout is absent or positive.
pub proof fn law_valid_pipeline_has_no_zero_timeout(p: Pipeline)
    requires
        validation_issue(p) is None,
    ensures
        forall|j: int| 0 <= j < p.steps@.len() ==> (#[trigger] p.steps@[j]).timeout_seconds != Some(0u64),
{
    lemma_no_zero_timeout_from(p.steps@, 0);
}

/// Every step that `select_steps` keeps satisfies `keep`.
proof fn lemma_selected_satisfy(steps: Seq<PipelineStep>, keep: spec_fn(PipelineStep) -> bool)
    ensures
        forall|k: int| 0 <= k < select_steps(steps, keep).len() ==> keep(#[trigger] select_steps(steps, keep)[k]),
    decreases steps.len(),
{
    if steps.len() > 0 {
        lemma_selected_satisfy(steps.drop_last(), keep);
        let pre = select_steps(steps.drop_last(), keep);
        assert forall|k: int| 0 <= k < select_steps(steps, keep).len() implies keep(
            #[trigger] select_steps(steps, keep)[k],
        ) by {
            if k < pre.len() {
                assert(select_steps(steps, keep)[k] == pre[k]);
            }
        }
    }
}

/// Law: every step that `find_ready_steps` returns for the completed steps
/// `completed` has not completed itself, and each of its dependencies is
/// among the completed steps.
pub proof fn law_ready_steps_have_their_dependencies(
    out: Seq<&PipelineStep>,
    steps: Seq<PipelineStep>,
    completed: Seq<String>,
)
    requires
        lists_selected(out, steps, |s: PipelineStep| is_ready(s, completed)),
    ensures
        forall|k: int, j: int|
            0 <= k < out.len() && 0 <= j < out[k].depends_on@.len() ==> exists|c: int|
                0 <= c < completed.len() && completed[c]@ == (#[trigger] out[k].depends_on@[j])@,
        forall|k: int|
            0 <= k < out.len() ==> forall|c: int| 0 <= c < completed.len() ==> completed[c]@ != (#[trigger] out[k]).name@,
{
    let keep = |s: PipelineStep| is_ready(s, completed);
    lemma_selected_satisfy(steps, keep);
    assert forall|k: int, j: int|
        0 <= k < out.len() && 0 <= j < out[k].depends_on@.len() implies exists|c: int|
            0 <= c < completed.len() && completed[c]@ == (#[trigger] out[k].depends_on@[j])@ by {
        assert(keep(select_steps(steps, keep)[k]));
        assert(*out[k] == select_steps(steps, keep)[k]);
        assert(names_contain(completed, out[k].depends_on@[j]@));
    }
    assert forall|k: int| 0 <= k < out.len() implies forall|c: int|
        0 <= c < completed.len() ==> completed[c]@ != (#[trigger] out[k]).name@ by {
        assert(keep(select_steps(steps, keep)[k]));
        assert(*out[k] == select_steps(steps, keep)[k]);
    }
}

/// Every step that satisfies `keep` is kept by `select_steps`.
proof fn lemma_selected_complete(steps: Seq<PipelineStep>, keep: spec_fn(PipelineStep) -> bool, i: int)
    requires
        0 <= i < steps.len(),
        keep(steps[i]),
    ensures
        select_steps(steps, keep).contains(steps[i]),
    decreases steps.len(),
{
    let pre = select_steps(steps.drop_last(), keep);
    if i < steps.len() - 1 {
        lemma_selected_complete(steps.drop_last(), keep, i);
        assert(steps.drop_last()[i] == steps[i]);
        let j = choose|j: int| 0 <= j < pre.len() && pre[j] == steps[i];
        assert(select_steps(steps, keep)[j] == pre[j]);
    } else {
        assert(select_steps(steps, keep)[pre.len() as int] == steps[i]);
    }
}

/// Law: `find_ready_steps` misses no ready step: every step that has not
/// completed and whose dependencies have all completed is among those it
/// returns.
pub proof fn law_every_ready_step_is_found(out: Seq<&PipelineStep>, steps: Seq<PipelineStep>, completed: Seq<String>, i: int)
    requires
        lists_selected(out, steps, |s: PipelineStep| is_ready(s, completed)),
        0 <= i < steps.len(),
        forall|c: int| 0 <= c < completed.len() ==> completed[c]@ != steps[i].name@,
        forall|j: int|
            0 <= j < steps[i].depends_on@.len() ==> exists|c: int|
                0 <= c < completed.len() && completed[c]@ == (#[trigger] steps[i].depends_on@[j])@,
    ensures
        exists|k: int| 0 <= k < out.len() && *out[k] == steps[i],
{
    let keep = |s: PipelineStep| is_ready(s, completed);
    assert(!names_contain(completed, steps[i].name@));
    assert(deps_done(steps[i], completed));
    lemma_selected_complete(steps, keep, i);
    let sel = select_steps(steps, keep);
    let k = choose|k: int| 0 <= k < sel.len() && sel[k] == steps[i];
    assert(*out[k] == sel[k]);
}

/// Law: a pipeline whose step settings pass has no step that retries with a
/// delay of zero, nor one with exponential backoff whose maximum delay is
/// below its delay.
pub proof fn law_step_configs_forbid_bad_retries(p: Pipeline)
    requires
        config_issue(p) is None,
    ensures
        forall|j: int|
            0 <= j < p.steps@.len() && (#[trigger] p.steps@[j]).retry.max_attempts > 0 ==> p.steps@[j].retry.delay_seconds
                > 0 && (p.steps@[j].retry.exponential_backoff ==> p.steps@[j].retry.max_delay_seconds
                >= p.steps@[j].retry.delay_seconds),
{
    lemma_no_bad_retry_from(p.steps@, 0);
}

proof fn lemma_no_bad_retry_from(steps: Seq<PipelineStep>, i: int)
    requires
        0 <= i,
        config_issue_from(steps, i) is None,
    ensures
        forall|j: int|
            i <= j < steps.len() && (#[trigger] steps[j]).retry.max_attempts > 0 ==> steps[j].retry.delay_seconds > 0
                && (steps[j].retry.exponential_backoff ==> steps[j].retry.max_delay_seconds >= steps[j].retry.delay_seconds),
    decreases steps.len() - i,
{
    if i < steps.len() {
        lemma_no_bad_retry_from(steps, i + 1);
    }
}

/// All dependencies of a step are among `completed`.
pub open spec fn deps_done(s: PipelineStep, completed: Seq<String>) -> bool {
    forall|k: int| 0 <= k < s.depends_on@.len() ==> names_contain(completed, (#[trigger] s.depends_on@[k])@)
}

/// A step is ready when it has not completed and all its dependencies have.
pub open spec fn is_ready(s: PipelineStep, completed: Seq<String>) -> bool {
    !names_contain(completed, s.name@) && deps_done(s, completed)
}

/// A step becomes ready when `newly` completes: it is neither completed nor
/// `newly`, all its dependencies are among `completed` or are `newly`, and
/// it was not ready already.
pub open spec fn becomes_ready(s: PipelineStep, completed: Seq<String>, newly: Seq<char>) -> bool {
    &&& !names_contain(completed, s.name@)
    &&& s.name@ != newly
    &&& forall|k: int|
        0 <= k < s.depends_on@.len() ==> names_contain(completed, (#[trigger] s.depends_on@[k])@)
            || s.depends_on@[k]@ == newly
    &&& !deps_done(s, completed)
}

/// Checks the integrity of pipelines.
pub struct PipelineValidator;

impl PipelineValidator {
    /// Checks the pipeline: structure, dependencies, cycles, parallel settings
    /// and step settings, in that order; the first problem found is reported.
    pub fn validate(pipeline: &Pipeline) -> (r: Result<(), PipelineError>)
        ensures
            result_matches(r, validation_issue(*pipeline)),
    {
        let r = Self::validate_structure(pipeline);
        if r.is_err() {
            return r;
        }
        let r = Self::validate_dependencies(pipeline);
        if r.is_err() {
            return r;
        }
        if Self::has_dependency_cycles(pipeline.steps.as_slice()) {
            return Err(PipelineError::DependencyCycle);
        }
        let r = Self::validate_parallel_config(pipeline);
        if r.is_err() {
            return r;
        }
        Self::validate_step_configs(pipeline)
    }

    /// Checks that the pipeline name is not blank, that there is a step, and
    /// that step names are neither blank nor repeated.
    pub fn validate_structure(pipeline: &Pipeline) -> (r: Result<(), PipelineError>)
        ensures
            result_matches(r, structure_issue(*pipeline)),
    {
        if is_blank(pipeline.name.as_str()) {
            return Err(PipelineError::ParseError("Pipeline name cannot be empty".to_owned()));
        }
        if pipeline.steps.len() == 0 {
            return Err(PipelineError::ParseError("Pipeline must have at least one step".to_owned()));
        }
        let steps = &pipeline.steps;
        let mut i: usize = 0;
        while i < steps.len()
            invariant
                steps == &pipeline.steps,
                i <= steps@.len(),
                structure_issue(*pipeline) == step_structure_issue(steps@, i as int),
            decreases steps@.len() - i,
        {
            let name = steps[i].name.as_str();
            if is_blank(name) {
                return Err(PipelineError::ParseError("Step name cannot be empty".to_owned()));
            }
            let mut j: usize = 0;
            while j < i
                invariant
                    steps == &pipeline.steps,
                    i < steps@.len(),
                    j <= i,
                    name@ == steps@[i as int].name@,
                    !is_blank_seq(name@),
                    structure_issue(*pipeline) == step_structure_issue(steps@, i as int),
                    forall|l: int| 0 <= l < j ==> steps@[l].name@ != steps@[i as int].name@,
                decreases i - j,
            {
                if str_eq(steps[j].name.as_str(), name) {
                    assert(name_repeated(steps@, i as int));
                    return Err(PipelineError::ParseError(concat3("Duplicate step name: '", name, "'")));
                }
                j = j + 1;
            }
            i = i + 1;
        }
        Ok(())
    }

    /// Checks every step's dependencies: each names an existing step, none is
    /// the step itself, none is repeated.
    pub fn validate_dependencies(pipeline: &Pipeline) -> (r: Result<(), PipelineError>)
        ensures
            result_matches(r, dependency_issue(*pipeline)),
    {
        let steps = &pipeline.steps;
        let mut i: usize = 0;
        while i < steps.len()
            invariant
                steps == &pipeline.steps,
                i <= steps@.len(),
                dependency_issue(*pipeline) == dependency_issue_from(steps@, i as int),
            decreases steps@.len() - i,
        {
            let step = &steps[i];
            let deps = &step.depends_on;
            let mut k: usize = 0;
            while k < deps.len()
                invariant
                    steps == &pipeline.steps,
                    dependency_issue(*pipeline) == dependency_issue_from(steps@, i as int),
                    i < steps@.len(),
                    step == &steps@[i as int],
                    deps == &step.depends_on,
                    k <= deps@.len(),
                    missing_dependency(steps@, deps@, 0) == missing_dependency(steps@, deps@, k as int),
                decreases deps@.len() - k,
            {
                if !Self::has_step(steps.as_slice(), deps[k].as_str()) {
                    return Err(
                        PipelineError::DependencyError(
                            concat5(
                                "Step '",
                                step.name.as_str(),
                                "' depends on non-existent step '",
                                deps[k].as_str(),
                                "'",
                            ),
                        ),
                    );
                }
                k = k + 1;
            }
            if contains_name(deps.as_slice(), step.name.as_str()) {
                return Err(
                    PipelineError::DependencyError(
                        concat3("Step '", step.name.as_str(), "' cannot depend on itself"),
                    ),
                );
            }
            let mut k: usize = 0;
            while k < deps.len()
                invariant
                    steps == &pipeline.steps,
                    dependency_issue(*pipeline) == dependency_issue_from(steps@, i as int),
                    missing_dependency(steps@, deps@, 0) is None,
                    !names_contain(deps@, step.name@),
                    i < steps@.len(),
                    step == &steps@[i as int],
                    deps == &step.depends_on,
                    k <= deps@.len(),
                    repeated_dependency(deps@, 0) == repeated_dependency(deps@, k as int),
                decreases deps@.len() - k,
            {
                let mut l: usize = 0;
                while l < k
                    invariant
                        steps == &pipeline.steps,
                        dependency_issue(*pipeline) == dependency_issue_from(steps@, i as int),
                        missing_dependency(steps@, deps@, 0) is None,
                        !names_contain(deps@, step.name@),
                        repeated_dependency(deps@, 0) == repeated_dependency(deps@, k as int),
                        i < steps@.len(),
                        step == &steps@[i as int],
                        deps == &step.depends_on,
                        k < deps@.len(),
                        l <= k,
                        forall|m: int| 0 <= m < l ==> deps@[m]@ != deps@[k as int]@,
                    decreases k - l,
                {
                    if str_eq(deps[l].as_str(), deps[k].as_str()) {
                        return Err(
                            PipelineError::DependencyError(
                                concat5(
                                    "Step '",
                                    step.name.as_str(),
                                    "' has duplicate dependency '",
                                    deps[k].as_str(),
                                    "'",
                                ),
                            ),
                        );
                    }
                    l = l + 1;
                }
                k = k + 1;
            }
            i = i + 1;
        }
        Ok(())
    }

    /// Whether some step carries the name `n`.
    fn has_step(steps: &[PipelineStep], n: &str) -> (r: bool)
        ensures
            r == has_step_named(steps@, n@),
    {
        let mut j: usize = 0;
        while j < steps.len()
            invariant
                j <= steps@.len(),
                forall|l: int| 0 <= l < j ==> (#[trigger] steps@[l]).name@ != n@,
            decreases steps@.len() - j,
        {
            if str_eq(steps[j].name.as_str(), n) {
                return true;
            }
            j = j + 1;
        }
        false
    }

    /// Checks the parallel settings: with parallelism enabled, the concurrency
    /// must be positive and some step must be marked parallel.
    pub fn validate_parallel_config(pipeline: &Pipeline) -> (r: Result<(), PipelineError>)
        ensures
            result_matches(r, parallel_issue(*pipeline)),
    {
        if pipeline.config.parallel.enabled {
            if pipeline.config.parallel.max_concurrent == 0 {
                return Err(
                    PipelineError::ConfigError(
                        "max_concurrent must be greater than 0 when parallel execution is enabled".to_owned(),
                    ),
                );
            }
            let mut count: usize = 0;
            let mut i: usize = 0;
            while i < pipeline.steps.len()
                invariant
                    i <= pipeline.steps@.len(),
                    count <= i,
                    (count == 0) == forall|j: int| 0 <= j < i ==> !(#[trigger] pipeline.steps@[j]).parallel,
                decreases pipeline.steps@.len() - i,
            {
                if pipeline.steps[i].parallel {
                    count = count + 1;
                }
                i = i + 1;
            }
            if count == 0 {
                return Err(
                    PipelineError::ConfigError(
                        "No steps marked as parallel, but parallel execution is enabled".to_owned(),
                    ),
                );
            }
        }
        Ok(())
    }

    /// Checks each step's retry and timeout settings.
    pub fn validate_step_configs(pipeline: &Pipeline) -> (r: Result<(), PipelineError>)
        ensures
            result_matches(r, config_issue(*pipeline)),
    {
        let steps = &pipeline.steps;
        let mut i: usize = 0;
        while i < steps.len()
            invariant
                steps == &pipeline.steps,
                i <= steps@.len(),
                config_issue_from(steps@, 0) == config_issue_from(steps@, i as int),
            decreases steps@.len() - i,
        {
            let step = &steps[i];
            if step.retry.max_attempts > 0 {
                if step.retry.delay_seconds == 0 {
                    return Err(
                        PipelineError::ConfigError(
                            concat3("Step '", step.name.as_str(), "' has retry enabled but delay_seconds is 0"),
                        ),
                    );
                }
                if step.retry.exponential_backoff && step.retry.max_delay_seconds < step.retry.delay_seconds {
                    return Err(
                        PipelineError::ConfigError(
                            concat3(
                                "Step '",
                                step.name.as_str(),
                                "' has max_delay_seconds less than delay_seconds",
                            ),
                        ),
                    );
                }
            }
            match step.timeout_seconds {
                Some(t) => {
                    if t == 0 {
                        return Err(
                            PipelineError::ConfigError(
                                concat3("Step '", step.name.as_str(), "' timeout cannot be 0"),
                            ),
                        );
                    }
                },
                None => {},
            }
            i = i + 1;
        }
        Ok(())
    }

    /// Whether the dependencies between the steps form a cycle.
    /// The steps that depend on the step named `step_name`, in order.
    pub fn find_dependent_steps<'a>(steps: &'a [PipelineStep], step_name: &str) -> (r: Vec<&'a PipelineStep>)
        ensures
            lists_selected(r@, steps@, |s: PipelineStep| depends_on_name(s, step_name@)),
    {
        collect_steps(
            steps,
            Ghost(|s: PipelineStep| depends_on_name(s, step_name@)),
            |s: &PipelineStep| -> (b: bool)
                ensures b == depends_on_name(*s, step_name@)
                { contains_name(s.depends_on.as_slice(), step_name) },
        )
    }

    pub fn has_dependency_cycles(steps: &[PipelineStep]) -> (r: bool)
        ensures
            r == !dependencies_acyclic(steps@),
    {
        let graph = DependencyGraph::new(steps);
        !graph.is_acyclic()
    }

    /// The steps in an order in which each comes after its dependencies (one
    /// step per distinct name); `DependencyCycle` when there is none.
    pub fn order_steps_by_dependencies(steps: &[PipelineStep]) -> (r: Result<Vec<&PipelineStep>, PipelineError>)
        ensures
            r is Ok <==> dependencies_acyclic(steps@),
            r is Err ==> r->Err_0 is DependencyCycle,
            r matches Ok(v) ==> exists|order: Seq<usize>|
                is_topological_order(steps@, order) && order.len() == v@.len() && forall|k: int|
                    0 <= k < order.len() ==> *v@[k] == steps@[order[k] as int],
    {
        let graph = DependencyGraph::new(steps);
        if !graph.is_acyclic() {
            return Err(PipelineError::DependencyCycle);
        }
        graph.topological_sort()
    }

    /// The steps whose dependencies are all among `completed_steps`, in order.
    pub fn find_ready_steps<'a>(steps: &'a [PipelineStep], completed_steps: &[String]) -> (r: Vec<&'a PipelineStep>)
        ensures
            lists_selected(r@, steps@, |s: PipelineStep| is_ready(s, completed_steps@)),
    {
        let ghost keep = |s: PipelineStep| is_ready(s, completed_steps@);
        let mut out: Vec<&'a PipelineStep> = Vec::new();
        let mut i: usize = 0;
        assert(steps@.subrange(0, 0) =~= Seq::<PipelineStep>::empty());
        while i < steps.len()
            invariant
                i <= steps@.len(),
                keep == (|s: PipelineStep| is_ready(s, completed_steps@)),
                lists_selected(out@, steps@.subrange(0, i as int), keep),
            decreases steps@.len() - i,
        {
            proof {
                assert(steps@.subrange(0, i + 1).drop_last() =~= steps@.subrange(0, i as int));
            }
            let ghost before = out@;
            if !contains_name(completed_steps, steps[i].name.as_str()) && steps[i].can_run(completed_steps) {
                out.push(&steps[i]);
            }
            proof {
                let sel = select_steps(steps@.subrange(0, i + 1), keep);
                assert forall|k: int| 0 <= k < sel.len() implies *out@[k] == sel[k] by {
                    if k < before.len() {
                        assert(out@[k] == before[k]);
                    }
                }
            }
            i = i + 1;
        }
        assert(steps@.subrange(0, steps@.len() as int) =~= steps@);
        out
    }

    /// The steps that become ready when `newly_completed` finishes after
    /// `completed_steps`, in order.
    pub fn find_next_ready_steps<'a>(
        steps: &'a [PipelineStep],
        completed_steps: &[String],
        newly_completed: &str,
    ) -> (r: Vec<&'a PipelineStep>)
        ensures
            lists_selected(
                r@,
                steps@,
                |s: PipelineStep| becomes_ready(s, completed_steps@, newly_completed@),
            ),
    {
        let ghost keep = |s: PipelineStep| becomes_ready(s, completed_steps@, newly_completed@);
        let mut out: Vec<&'a PipelineStep> = Vec::new();
        let mut i: usize = 0;
        assert(steps@.subrange(0, 0) =~= Seq::<PipelineStep>::empty());
        while i < steps.len()
            invariant
                i <= steps@.len(),
                keep == (|s: PipelineStep| becomes_ready(s, completed_steps@, newly_completed@)),
                lists_selected(out@, steps@.subrange(0, i as int), keep),
            decreases steps@.len() - i,
        {
            proof {
                assert(steps@.subrange(0, i + 1).drop_last() =~= steps@.subrange(0, i as int));
            }
            let ghost before = out@;
            let step = &steps[i];
            let mut ok = !contains_name(completed_steps, step.name.as_str()) && !str_eq(
                step.name.as_str(),
                newly_completed,
            );
            let mut k: usize = 0;
            while ok && k < step.depends_on.len()
                invariant
                    k <= step.depends_on@.len(),
                    ok ==> forall|m: int|
                        0 <= m < k ==> names_contain(completed_steps@, (#[trigger] step.depends_on@[m])@)
                            || step.depends_on@[m]@ == newly_completed@,
                    ok ==> !names_contain(completed_steps@, step.name@) && step.name@ != newly_completed@,
                    !ok ==> !becomes_ready(*step, completed_steps@, newly_completed@),
                decreases step.depends_on@.len() - k,
            {
                let d = step.depends_on[k].as_str();
                if !(contains_name(completed_steps, d) || str_eq(d, newly_completed)) {
                    ok = false;
                }
                k = k + 1;
            }
            if ok && step.can_run(completed_steps) {
                ok = false;
            }
            if ok {
                out.push(step);
            }
            proof {
                let sel = select_steps(steps@.subrange(0, i + 1), keep);
                assert forall|k: int| 0 <= k < sel.len() implies *out@[k] == sel[k] by {
                    if k < before.len() {
                        assert(out@[k] == before[k]);
                    }
                }
            }
            i = i + 1;
        }
        assert(steps@.subrange(0, steps@.len() as int) =~= steps@);
        out
    }
}

} // verus!
