//! Sequential pipeline execution: statistics, per-step results, retries and
//! the execution plan.
use vstd::prelude::*;
use crate::error::{concat3, PipelineError};
use crate::graph::{dependencies_acyclic, is_node, is_topological_order};
use crate::step::{has_estimate, retry_delay_spec, total_estimate, Pipeline, PipelineStep, StepStatus};
use crate::strmap::StrMap;
use crate::critical::lemma_order_len;
use crate::format::text_or;
use crate::validator::{error_matches, step_structure_issue, validation_issue, PipelineValidator};

verus! {

/// Counters of a pipeline run.
#[derive(Debug, Clone, Copy)]
pub struct ExecutionStats {
    /// Steps that ran (successfully, or through the simple recorder).
    pub steps_executed: u64,
    /// Steps that failed.
    pub failed_steps: u64,
    /// Steps that were skipped.
    pub skipped_steps: u64,
    /// Total execution time in milliseconds.
    pub total_execution_time_ms: u64,
    /// Retries performed.
    pub retried_steps: u64,
    /// Steps that were cancelled.
    pub cancelled_steps: u64,
}

/// All counters are zero.
pub open spec fn stats_zero(s: ExecutionStats) -> bool {
    &&& s.steps_executed == 0
    &&& s.failed_steps == 0
    &&& s.skipped_steps == 0
    &&& s.total_execution_time_ms == 0
    &&& s.retried_steps == 0
    &&& s.cancelled_steps == 0
}

impl ExecutionStats {
    /// All counters at zero.
    pub fn zero() -> (r: Self)
        ensures
            stats_zero(r),
    {
        ExecutionStats {
            steps_executed: 0,
            failed_steps: 0,
            skipped_steps: 0,
            total_execution_time_ms: 0,
            retried_steps: 0,
            cancelled_steps: 0,
        }
    }
}

impl Default for ExecutionStats {
    fn default() -> (r: Self)
        ensures
            stats_zero(r),
    {
        ExecutionStats::zero()
    }
}

/// A point in time, taken from the monotonic clock.
#[verifier::external_type_specification]
#[verifier::external_body]
pub struct ExInstant(std::time::Instant);

/// The current instant, by `std::time::Instant::now`.
#[verifier::external_body]
pub(crate) fn now() -> (r: std::time::Instant) {
    std::time::Instant::now()
}

/// Milliseconds elapsed since `start`, by `Instant::elapsed`, truncated to
/// `u64`.  Nothing is stated of the value: it depends on the clock.
#[verifier::external_body]
pub(crate) fn elapsed_ms(start: &std::time::Instant) -> (r: u64) {
    start.elapsed().as_millis() as u64
}

/// What a step executor is given for one attempt.
pub struct StepExecutionContext {
    /// Name of the step.
    pub step_name: String,
    /// Attempt number, 0 for the first.
    pub attempt: u32,
    /// When the attempt started.
    pub start_time: std::time::Instant,
    /// The step's timeout in seconds, if it has one.
    pub timeout_seconds: Option<u64>,
    /// Environment of the step: global, pipeline and step variables, the
    /// later overriding the earlier.
    pub env_overrides: StrMap<String>,
}

/// Outcome of running one step.
#[derive(Debug, Clone)]
pub struct StepExecutionResult {
    /// Final status.
    pub status: StepStatus,
    /// Time taken, in milliseconds.
    pub duration_ms: u64,
    /// Attempt that produced this result, 0 for the first.
    pub attempt: u32,
    /// Captured output.
    pub output: Option<String>,
    /// Error message or reason.
    pub error: Option<String>,
    /// Exit code of the step's process.
    pub exit_code: Option<i32>,
    /// Whether the failure may be retried.
    pub should_retry: bool,
}

/// Whether an optional string holds the text `t`.
pub open spec fn opt_text(o: Option<String>, t: Seq<char>) -> bool {
    o matches Some(s) && s@ == t
}

impl StepExecutionResult {
    /// A successful first attempt with exit code 0.
    pub fn success(duration_ms: u64, output: Option<String>) -> (r: Self)
        ensures
            r == (StepExecutionResult {
                status: StepStatus::Success,
                duration_ms,
                attempt: 0,
                output,
                error: None,
                exit_code: Some(0i32),
                should_retry: false,
            }),
    {
        StepExecutionResult {
            status: StepStatus::Success,
            duration_ms,
            attempt: 0,
            output,
            error: None,
            exit_code: Some(0),
            should_retry: false,
        }
    }

    /// A failed first attempt.
    pub fn failure(duration_ms: u64, error: String, exit_code: Option<i32>, should_retry: bool) -> (r: Self)
        ensures
            r == (StepExecutionResult {
                status: StepStatus::Failed,
                duration_ms,
                attempt: 0,
                output: None,
                error: Some(error),
                exit_code,
                should_retry,
            }),
    {
        StepExecutionResult {
            status: StepStatus::Failed,
            duration_ms,
            attempt: 0,
            output: None,
            error: Some(error),
            exit_code,
            should_retry,
        }
    }

    /// A skipped step, with the reason as its error.
    pub fn skipped(reason: String) -> (r: Self)
        ensures
            r == (StepExecutionResult {
                status: StepStatus::Skipped,
                duration_ms: 0,
                attempt: 0,
                output: None,
                error: Some(reason),
                exit_code: None,
                should_retry: false,
            }),
    {
        StepExecutionResult {
            status: StepStatus::Skipped,
            duration_ms: 0,
            attempt: 0,
            output: None,
            error: Some(reason),
            exit_code: None,
            should_retry: false,
        }
    }

    /// A cancelled step.
    pub fn cancelled(duration_ms: u64) -> (r: Self)
        ensures
            r.status == StepStatus::Cancelled,
            r.duration_ms == duration_ms,
            r.attempt == 0,
            r.output is None,
            opt_text(r.error, "Step was cancelled"@),
            r.exit_code is None,
            !r.should_retry,
    {
        StepExecutionResult {
            status: StepStatus::Cancelled,
            duration_ms,
            attempt: 0,
            output: None,
            error: Some("Step was cancelled".to_owned()),
            exit_code: None,
            should_retry: false,
        }
    }
}

/// The statistics after recording `r`: the counter of its status grows by
/// one (none for other statuses), retries grow by one when it is not a first
/// attempt, and its duration is added.
pub open spec fn stats_after(s: ExecutionStats, r: StepExecutionResult) -> ExecutionStats {
    ExecutionStats {
        steps_executed: if r.status == StepStatus::Success {
            (s.steps_executed + 1) as u64
        } else {
            s.steps_executed
        },
        failed_steps: if r.status == StepStatus::Failed {
            (s.failed_steps + 1) as u64
        } else {
            s.failed_steps
        },
        skipped_steps: if r.status == StepStatus::Skipped {
            (s.skipped_steps + 1) as u64
        } else {
            s.skipped_steps
        },
        cancelled_steps: if r.status == StepStatus::Cancelled {
            (s.cancelled_steps + 1) as u64
        } else {
            s.cancelled_steps
        },
        retried_steps: if r.attempt > 0 {
            (s.retried_steps + 1) as u64
        } else {
            s.retried_steps
        },
        total_execution_time_ms: (s.total_execution_time_ms + r.duration_ms) as u64,
    }
}

/// Recording `r` keeps every counter within `u64`.
pub open spec fn stats_fit(s: ExecutionStats, r: StepExecutionResult) -> bool {
    &&& s.steps_executed < u64::MAX
    &&& s.failed_steps < u64::MAX
    &&& s.skipped_steps < u64::MAX
    &&& s.cancelled_steps < u64::MAX
    &&& s.retried_steps < u64::MAX
    &&& s.total_execution_time_ms + r.duration_ms <= u64::MAX
}

/// The texts of a list of names.
pub open spec fn texts(names: Seq<String>) -> Seq<Seq<char>> {
    names.map_values(|n: String| n@)
}

/// Runs pipeline steps one after the other and keeps their results.
pub struct PipelineExecutor {
    stats: ExecutionStats,
    step_results: StrMap<StepExecutionResult>,
    execution_order: Vec<String>,
    cancelled: bool,
    simple_failures: u64,
}

impl PipelineExecutor {
    /// The results recorded are exactly those of the steps in the execution
    /// order.
    #[verifier::type_invariant]
    spec fn results_match_order(self) -> bool {
        &&& self.step_results@.dom() == texts(self.execution_order@).to_set()
        &&& self.simple_failures <= self.stats.steps_executed
        &&& self.simple_failures <= self.stats.failed_steps
    }

    /// The statistics.
    pub closed spec fn stats_view(self) -> ExecutionStats {
        self.stats
    }

    /// The recorded results, by step name.
    pub closed spec fn results_view(self) -> Map<Seq<char>, StepExecutionResult> {
        self.step_results@
    }

    /// The names of the recorded steps, in the order they were recorded.
    pub closed spec fn order_view(self) -> Seq<String> {
        self.execution_order@
    }

    /// Whether the run was cancelled.
    pub closed spec fn cancelled_view(self) -> bool {
        self.cancelled
    }

    /// Failures recorded by outcome alone, which count both as executed and
    /// as failed.
    pub closed spec fn simple_failures_view(self) -> u64 {
        self.simple_failures
    }

    /// An executor with zero statistics, no results and not cancelled.
    pub fn new() -> (r: Self)
        ensures
            stats_zero(r.stats_view()),
            r.results_view() == Map::<Seq<char>, StepExecutionResult>::empty(),
            r.order_view() == Seq::<String>::empty(),
            !r.cancelled_view(),
            r.simple_failures_view() == 0,
    {
        let step_results = StrMap::new();
        let execution_order = Vec::new();
        assert(texts(execution_order@).to_set() =~= Set::empty());
        PipelineExecutor {
            stats: ExecutionStats::zero(),
            step_results,
            execution_order,
            cancelled: false,
            simple_failures: 0,
        }
    }

    /// The statistics.
    pub fn stats(&self) -> (r: &ExecutionStats)
        ensures
            *r == self.stats_view(),
    {
        &self.stats
    }

    /// The recorded results, by step name.
    pub fn step_results(&self) -> (r: &StrMap<StepExecutionResult>)
        ensures
            r@ == self.results_view(),
    {
        &self.step_results
    }

    /// The names of the recorded steps, in order.
    pub fn execution_order(&self) -> (r: &[String])
        ensures
            r@ == self.order_view(),
    {
        self.execution_order.as_slice()
    }

    /// Clears the statistics, results and order, and the cancellation.
    pub fn reset_stats(&mut self)
        ensures
            stats_zero(final(self).stats_view()),
            final(self).results_view() == Map::<Seq<char>, StepExecutionResult>::empty(),
            final(self).order_view() == Seq::<String>::empty(),
            !final(self).cancelled_view(),
            final(self).simple_failures_view() == 0,
    {
        *self = PipelineExecutor::new();
    }

    /// Marks the run as cancelled.
    pub fn cancel(&mut self)
        ensures
            final(self).cancelled_view(),
            final(self).stats_view() == old(self).stats_view(),
            final(self).results_view() == old(self).results_view(),
            final(self).order_view() == old(self).order_view(),
            final(self).simple_failures_view() == old(self).simple_failures_view(),
    {
        proof {
            use_type_invariant(&*self);
        }
        self.cancelled = true;
    }

    /// Whether the run was cancelled.
    pub fn is_cancelled(&self) -> (r: bool)
        ensures
            r == self.cancelled_view(),
    {
        self.cancelled
    }

    /// Records the result of a step run by some other executor: counts it,
    /// keeps it under the step's name and appends the name to the order.
    pub fn record_step_execution(&mut self, step_name: String, result: StepExecutionResult)
        requires
            stats_fit(old(self).stats_view(), result),
        ensures
            final(self).stats_view() == stats_after(old(self).stats_view(), result),
            final(self).results_view() == old(self).results_view().insert(step_name@, result),
            final(self).order_view() == old(self).order_view().push(step_name),
            final(self).cancelled_view() == old(self).cancelled_view(),
            final(self).results_view().dom() == texts(final(self).order_view()).to_set(),
            final(self).simple_failures_view() == old(self).simple_failures_view(),
    {
        let mut me = PipelineExecutor::new();
        std::mem::swap(&mut me, self);
        proof {
            use_type_invariant(&me);
        }
        let PipelineExecutor {
            mut stats,
            step_results: mut results,
            execution_order: mut order,
            cancelled,
            simple_failures,
        } = me;
        let ghost old_order = order@;
        match result.status {
            StepStatus::Success => stats.steps_executed = stats.steps_executed + 1,
            StepStatus::Failed => stats.failed_steps = stats.failed_steps + 1,
            StepStatus::Skipped => stats.skipped_steps = stats.skipped_steps + 1,
            StepStatus::Cancelled => stats.cancelled_steps = stats.cancelled_steps + 1,
            _ => {},
        }
        if result.attempt > 0 {
            stats.retried_steps = stats.retried_steps + 1;
        }
        stats.total_execution_time_ms = stats.total_execution_time_ms + result.duration_ms;
        let key = step_name.clone();
        results.insert(key, result);
        order.push(step_name);
        proof {
            assert(texts(order@) =~= texts(old_order).push(step_name@));
            texts(old_order).lemma_push_to_set_commute(step_name@);
            assert(results@.dom() =~= texts(order@).to_set());
        }
        *self = PipelineExecutor { stats, step_results: results, execution_order: order, cancelled, simple_failures };
        proof {
            use_type_invariant(&*self);
        }
    }

    /// Records a step by outcome and duration alone: it counts as executed,
    /// and also as failed when it did not succeed (such a failure is counted
    /// once in the summary's total).
    pub fn record_step_execution_simple(&mut self, success: bool, duration_ms: u64)
        requires
            old(self).stats_view().steps_executed < u64::MAX,
            old(self).stats_view().total_execution_time_ms + duration_ms <= u64::MAX,
            !success ==> old(self).stats_view().failed_steps < u64::MAX,
        ensures
            final(self).stats_view() == (ExecutionStats {
                steps_executed: (old(self).stats_view().steps_executed + 1) as u64,
                total_execution_time_ms: (old(self).stats_view().total_execution_time_ms
                    + duration_ms) as u64,
                failed_steps: if success {
                    old(self).stats_view().failed_steps
                } else {
                    (old(self).stats_view().failed_steps + 1) as u64
                },
                ..old(self).stats_view()
            }),
            final(self).results_view() == old(self).results_view(),
            final(self).order_view() == old(self).order_view(),
            final(self).cancelled_view() == old(self).cancelled_view(),
            final(self).simple_failures_view() == if success {
                old(self).simple_failures_view()
            } else {
                (old(self).simple_failures_view() + 1) as u64
            },
    {
        proof {
            use_type_invariant(&*self);
        }
        self.stats.steps_executed = self.stats.steps_executed + 1;
        self.stats.total_execution_time_ms = self.stats.total_execution_time_ms + duration_ms;
        if !success {
            self.stats.failed_steps = self.stats.failed_steps + 1;
            self.simple_failures = self.simple_failures + 1;
        }
    }

    /// Counts a skipped step.
    pub fn record_step_skipped(&mut self)
        requires
            old(self).stats_view().skipped_steps < u64::MAX,
        ensures
            final(self).stats_view() == (ExecutionStats {
                skipped_steps: (old(self).stats_view().skipped_steps + 1) as u64,
                ..old(self).stats_view()
            }),
            final(self).results_view() == old(self).results_view(),
            final(self).order_view() == old(self).order_view(),
            final(self).cancelled_view() == old(self).cancelled_view(),
            final(self).simple_failures_view() == old(self).simple_failures_view(),
    {
        proof {
            use_type_invariant(&*self);
        }
        self.stats.skipped_steps = self.stats.skipped_steps + 1;
    }

    /// Counts a retry.
    pub fn record_retry(&mut self)
        requires
            old(self).stats_view().retried_steps < u64::MAX,
        ensures
            final(self).stats_view() == (ExecutionStats {
                retried_steps: (old(self).stats_view().retried_steps + 1) as u64,
                ..old(self).stats_view()
            }),
            final(self).results_view() == old(self).results_view(),
            final(self).order_view() == old(self).order_view(),
            final(self).cancelled_view() == old(self).cancelled_view(),
            final(self).simple_failures_view() == old(self).simple_failures_view(),
    {
        proof {
            use_type_invariant(&*self);
        }
        self.stats.retried_steps = self.stats.retried_steps + 1;
    }
}

impl Default for PipelineExecutor {
    fn default() -> (r: Self)
        ensures
            stats_zero(r.stats_view()),
            r.results_view() == Map::<Seq<char>, StepExecutionResult>::empty(),
            r.order_view() == Seq::<String>::empty(),
            !r.cancelled_view(),
    {
        PipelineExecutor::new()
    }
}

/// Plan of a sequential run.
#[derive(Debug)]
pub struct ExecutionPlan {
    /// Step names in dependency order.
    pub ordered_steps: Vec<String>,
    /// Sum of the steps' estimated durations in seconds, if any step has one.
    pub estimated_duration_seconds: Option<u64>,
    /// Groups of steps that may run together: for now one group holding the
    /// whole order.
    pub parallel_groups: Vec<Vec<String>>,
    /// Steps on the critical path: for now the whole order.
    pub critical_path: Vec<String>,
}

/// `names` are the names of the steps at the positions of a topological
/// order of `steps`.
pub open spec fn names_in_dependency_order(names: Seq<String>, steps: Seq<PipelineStep>) -> bool {
    exists|order: Seq<usize>|
        #![trigger is_topological_order(steps, order)]
        is_topological_order(steps, order) && order.len() == names.len() && forall|k: int|
            0 <= k < order.len() ==> (#[trigger] names[k])@ == steps[order[k] as int].name@
}

/// `plan` is the plan of a pipeline with steps `steps`.
pub open spec fn plan_matches(plan: ExecutionPlan, steps: Seq<PipelineStep>) -> bool {
    &&& names_in_dependency_order(plan.ordered_steps@, steps)
    &&& plan.estimated_duration_seconds == if has_estimate(steps) {
        Some(total_estimate(steps) as u64)
    } else {
        None::<u64>
    }
    &&& plan.parallel_groups@.len() == 1
    &&& texts(plan.parallel_groups@[0]@) == texts(plan.ordered_steps@)
    &&& texts(plan.critical_path@) == texts(plan.ordered_steps@)
}

/// Sum of the steps' maximum retry attempts.
pub open spec fn attempts_total(steps: Seq<PipelineStep>) -> nat
    decreases steps.len(),
{
    if steps.len() == 0 {
        0
    } else {
        attempts_total(steps.drop_last()) + steps.last().retry.max_attempts as nat
    }
}

/// Sum of the maximum retry attempts of the steps at positions `idx`.
pub open spec fn attempts_at(steps: Seq<PipelineStep>, idx: Seq<usize>) -> nat
    decreases idx.len(),
{
    if idx.len() == 0 {
        0
    } else {
        attempts_at(steps, idx.drop_last()) + steps[idx.last() as int].retry.max_attempts as nat
    }
}

/// A run of `steps` cannot overflow the counters that start at `s`, whatever
/// the step executor returns.
pub open spec fn run_fits(s: ExecutionStats, steps: Seq<PipelineStep>) -> bool {
    &&& s.steps_executed + steps.len() <= u64::MAX
    &&& s.failed_steps + steps.len() <= u64::MAX
    &&& s.skipped_steps + steps.len() <= u64::MAX
    &&& s.cancelled_steps + steps.len() <= u64::MAX
    &&& s.retried_steps + attempts_total(steps) <= u64::MAX
}

proof fn lemma_attempts_at_remove(steps: Seq<PipelineStep>, idx: Seq<usize>, p: int)
    requires
        0 <= p < idx.len(),
    ensures
        attempts_at(steps, idx) == attempts_at(steps, idx.remove(p)) + steps[idx[p] as int].retry.max_attempts,
    decreases idx.len(),
{
    if p == idx.len() - 1 {
        assert(idx.remove(p) =~= idx.drop_last());
    } else {
        lemma_attempts_at_remove(steps, idx.drop_last(), p);
        assert(idx.remove(p).drop_last() =~= idx.drop_last().remove(p));
        assert(idx.remove(p).last() == idx.last());
    }
}

proof fn lemma_attempts_at_prefix(steps: Seq<PipelineStep>, idx: Seq<usize>)
    requires
        steps.len() > 0,
        forall|k: int| 0 <= k < idx.len() ==> idx[k] < steps.len() - 1,
    ensures
        attempts_at(steps, idx) == attempts_at(steps.drop_last(), idx),
    decreases idx.len(),
{
    if idx.len() > 0 {
        lemma_attempts_at_prefix(steps, idx.drop_last());
    }
}

/// The attempts of distinct steps add up to at most those of all steps.
proof fn lemma_attempts_at_le(steps: Seq<PipelineStep>, idx: Seq<usize>)
    requires
        steps.len() <= usize::MAX,
        idx.no_duplicates(),
        forall|k: int| 0 <= k < idx.len() ==> idx[k] < steps.len(),
    ensures
        attempts_at(steps, idx) <= attempts_total(steps),
    decreases steps.len(),
{
    if steps.len() == 0 {
        if idx.len() > 0 {
            assert(idx[0] < steps.len());
        }
    } else {
        let n = steps.len() - 1;
        let t = steps.drop_last();
        if idx.contains(n as usize) {
            let p = choose|p: int| 0 <= p < idx.len() && idx[p] == n as usize;
            let r = idx.remove(p);
            lemma_attempts_at_remove(steps, idx, p);
            assert forall|k: int| 0 <= k < r.len() implies r[k] < n by {
                if k < p {
                    assert(r[k] == idx[k]);
                } else {
                    assert(r[k] == idx[k + 1]);
                }
            }
            assert forall|a: int, b: int| 0 <= a < r.len() && 0 <= b < r.len() && a != b implies r[a]
                != r[b] by {
                let ia = if a < p { a } else { a + 1 };
                let ib = if b < p { b } else { b + 1 };
                assert(r[a] == idx[ia]);
                assert(r[b] == idx[ib]);
            }
            lemma_attempts_at_prefix(steps, r);
            lemma_attempts_at_le(t, r);
        } else {
            assert forall|k: int| 0 <= k < idx.len() implies idx[k] < n by {
                assert(idx[k] != n as usize);
            }
            lemma_attempts_at_prefix(steps, idx);
            lemma_attempts_at_le(t, idx);
        }
    }
}

impl PipelineExecutor {
    /// The environment of a step: the pipeline's global variables, then the
    /// pipeline's, then the step's, each overriding the earlier.
    pub fn build_env_overrides(&self, step: &PipelineStep, pipeline: &Pipeline) -> (r: StrMap<String>)
        ensures
            r@ == pipeline.config.global_env@.union_prefer_right(pipeline.env@).union_prefer_right(
                step.env@,
            ),
    {
        let mut env: StrMap<String> = StrMap::new();
        env.extend_from(&pipeline.config.global_env);
        assert(env@ =~= pipeline.config.global_env@);
        env.extend_from(&pipeline.env);
        env.extend_from(&step.env);
        env
    }

    /// The plan of a sequential run: the pipeline is validated, its steps are
    /// put in dependency order, and their estimated durations are added up.
    pub fn create_execution_plan(pipeline: &Pipeline) -> (r: Result<ExecutionPlan, PipelineError>)
        requires
            validation_issue(*pipeline) is None ==> total_estimate(pipeline.steps@) <= u64::MAX,
        ensures
            match validation_issue(*pipeline) {
                Some(i) => r matches Err(e) && error_matches(e, i),
                None => r matches Ok(plan) && plan_matches(plan, pipeline.steps@),
            },
    {
        match pipeline.validate() {
            Ok(()) => {},
            Err(e) => {
                return Err(e);
            },
        }
        proof {
            lemma_valid_is_acyclic(*pipeline);
        }
        let refs = match PipelineValidator::order_steps_by_dependencies(pipeline.steps.as_slice()) {
            Ok(v) => v,
            Err(e) => {
                return Err(e);
            },
        };
        let ghost order = choose|order: Seq<usize>|
            is_topological_order(pipeline.steps@, order) && order.len() == refs@.len() && forall|k: int|
                0 <= k < order.len() ==> *refs@[k] == pipeline.steps@[order[k] as int];
        let mut ordered_steps: Vec<String> = Vec::new();
        let mut i: usize = 0;
        while i < refs.len()
            invariant
                i <= refs@.len(),
                ordered_steps@.len() == i,
                forall|k: int| 0 <= k < i ==> (#[trigger] ordered_steps@[k])@ == refs@[k].name@,
            decreases refs@.len() - i,
        {
            ordered_steps.push(refs[i].name.clone());
            i = i + 1;
        }
        assert(names_in_dependency_order(ordered_steps@, pipeline.steps@)) by {
            assert(is_topological_order(pipeline.steps@, order));
        }
        let estimated_duration_seconds = pipeline.estimated_duration();
        let group = clone_names(&ordered_steps);
        let mut parallel_groups: Vec<Vec<String>> = Vec::new();
        parallel_groups.push(group);
        let critical_path = clone_names(&ordered_steps);
        Ok(ExecutionPlan { ordered_steps, estimated_duration_seconds, parallel_groups, critical_path })
    }
}

/// A valid pipeline has acyclic dependencies.
proof fn lemma_valid_is_acyclic(p: Pipeline)
    requires
        validation_issue(p) is None,
    ensures
        dependencies_acyclic(p.steps@),
{
}

/// A copy of a list of names.
fn clone_names(names: &Vec<String>) -> (r: Vec<String>)
    ensures
        texts(r@) == texts(names@),
{
    let mut out: Vec<String> = Vec::new();
    let mut i: usize = 0;
    while i < names.len()
        invariant
            i <= names@.len(),
            out@.len() == i,
            forall|k: int| 0 <= k < i ==> (#[trigger] out@[k])@ == names@[k]@,
        decreases names@.len() - i,
    {
        out.push(names[i].clone());
        i = i + 1;
    }
    assert(texts(out@) =~= texts(names@));
    out
}

/// Whether a result calls for another attempt: it failed, asks for a retry,
/// and attempt `attempt` is not the last of `max_attempts`.
pub open spec fn wants_retry(r: StepExecutionResult, attempt: int, max_attempts: int) -> bool {
    r.status == StepStatus::Failed && attempt < max_attempts - 1 && r.should_retry
}

/// The number of attempts a step gets: its maximum, and at least one.
pub open spec fn attempt_limit(s: PipelineStep) -> int {
    if s.retry.max_attempts >= 1 {
        s.retry.max_attempts as int
    } else {
        1
    }
}

impl PipelineExecutor {
    /// Appends a result under a name, leaving the statistics alone.
    fn push_result(&mut self, name: String, result: StepExecutionResult)
        ensures
            final(self).stats_view() == old(self).stats_view(),
            final(self).results_view() == old(self).results_view().insert(name@, result),
            final(self).order_view() == old(self).order_view().push(name),
            final(self).cancelled_view() == old(self).cancelled_view(),
            final(self).results_view().dom() == texts(final(self).order_view()).to_set(),
            final(self).simple_failures_view() == old(self).simple_failures_view(),
    {
        let mut me = PipelineExecutor::new();
        std::mem::swap(&mut me, self);
        proof {
            use_type_invariant(&me);
        }
        let PipelineExecutor {
            stats,
            step_results: mut results,
            execution_order: mut order,
            cancelled,
            simple_failures,
        } = me;
        let ghost old_order = order@;
        let key = name.clone();
        results.insert(key, result);
        order.push(name);
        proof {
            assert(texts(order@) =~= texts(old_order).push(name@));
            texts(old_order).lemma_push_to_set_commute(name@);
            assert(results@.dom() =~= texts(order@).to_set());
        }
        *self = PipelineExecutor { stats, step_results: results, execution_order: order, cancelled, simple_failures };
        proof {
            use_type_invariant(&*self);
        }
    }

    /// Runs a step until it succeeds, does not ask for a retry, or has used
    /// its attempts; waits the retry delay between attempts.
    fn execute_step_with_retry<F, W>(
        &mut self,
        step: &PipelineStep,
        pipeline: &Pipeline,
        step_executor: &F,
        wait: &W,
    ) -> (r: Result<StepExecutionResult, PipelineError>) where
        F: Fn(&PipelineStep, &StepExecutionContext) -> Result<StepExecutionResult, PipelineError>,
        W: Fn(u64),

        requires
            forall|s: &PipelineStep, c: &StepExecutionContext| #[trigger] step_executor.requires((s, c)),
            forall|d: u64| #[trigger] wait.requires((d,)),
            old(self).stats_view().retried_steps + step.retry.max_attempts <= u64::MAX,
        ensures
            old(self).stats_view().retried_steps <= final(self).stats_view().retried_steps,
            final(self).stats_view().retried_steps <= old(self).stats_view().retried_steps + attempt_limit(*step) - 1,
            final(self).stats_view() == (ExecutionStats {
                retried_steps: final(self).stats_view().retried_steps,
                ..old(self).stats_view()
            }),
            final(self).results_view() == old(self).results_view(),
            final(self).order_view() == old(self).order_view(),
            final(self).cancelled_view() == old(self).cancelled_view(),
            final(self).simple_failures_view() == old(self).simple_failures_view(),
            forall|a: int|
                0 <= a < final(self).stats_view().retried_steps - old(self).stats_view().retried_steps
                    ==> #[trigger] retried_attempt(*step_executor, *wait, *step, *pipeline, a),
            r matches Ok(res) ==> !wants_retry(
                res,
                final(self).stats_view().retried_steps - old(self).stats_view().retried_steps,
                attempt_limit(*step),
            ),
            exists|c: StepExecutionContext|
                {
                    &&& c.step_name@ == step.name@
                    &&& c.attempt == final(self).stats_view().retried_steps - old(
                        self,
                    ).stats_view().retried_steps
                    &&& c.timeout_seconds == step.timeout_seconds
                    &&& c.env_overrides@ == pipeline.config.global_env@.union_prefer_right(
                        pipeline.env@,
                    ).union_prefer_right(step.env@)
                    &&& #[trigger] step_executor.ensures((step, &c), r)
                },
    {
        proof {
            use_type_invariant(&*self);
        }
        let max_attempts: u32 = if step.retry.max_attempts > 1 {
            step.retry.max_attempts
        } else {
            1
        };
        let ghost start = self.stats.retried_steps;
        let mut attempt: u32 = 0;
        loop
            invariant
                forall|s: &PipelineStep, c: &StepExecutionContext| #[trigger] step_executor.requires((s, c)),
                forall|d: u64| #[trigger] wait.requires((d,)),
                max_attempts == attempt_limit(*step),
                attempt <= max_attempts - 1,
                start == old(self).stats_view().retried_steps,
                start + step.retry.max_attempts <= u64::MAX,
                    self.stats_view().retried_steps == start + attempt,
                self.stats_view() == (ExecutionStats {
                    retried_steps: self.stats_view().retried_steps,
                    ..old(self).stats_view()
                }),
                self.results_view() == old(self).results_view(),
                self.order_view() == old(self).order_view(),
                self.cancelled_view() == old(self).cancelled_view(),
                self.simple_failures_view() == old(self).simple_failures_view(),
                forall|a: int| 0 <= a < attempt ==> #[trigger] retried_attempt(*step_executor, *wait, *step, *pipeline, a),
            decreases max_attempts - attempt,
        {
            let context = StepExecutionContext {
                step_name: step.name.clone(),
                attempt,
                start_time: now(),
                timeout_seconds: step.timeout_seconds,
                env_overrides: self.build_env_overrides(step, pipeline),
            };
            let outcome = step_executor(step, &context);
            assert(step_executor.ensures((step, &context), outcome));
            let result = match outcome {
                Ok(res) => res,
                Err(e) => {
                    return Err(e);
                },
            };
            if result.status == StepStatus::Failed && attempt < max_attempts - 1 && result.should_retry {
                let ghost previous = attempt;
                attempt = attempt + 1;
                proof {
                    use_type_invariant(&*self);
                }
                self.stats.retried_steps = self.stats.retried_steps + 1;
                let delay = step.retry_delay(attempt);
                if delay > 0 {
                    wait(delay);
                }
                proof {
                    assert(context_for(context, *step, *pipeline));
                    assert(step_executor.ensures((step, &context), Ok(result)));
                    assert(retried_attempt(*step_executor, *wait, *step, *pipeline, previous as int));
                }
            } else {
                return Ok(result);
            }
        }
    }
}

/// Number of the names in `names` whose result in `results` has status `st`.
pub open spec fn count_recorded(names: Seq<String>, results: Map<Seq<char>, StepExecutionResult>, st: StepStatus) -> nat
    decreases names.len(),
{
    if names.len() == 0 {
        0
    } else {
        count_recorded(names.drop_last(), results, st) + if results[names.last()@].status == st {
            1nat
        } else {
            0nat
        }
    }
}

/// `c` is a context the run hands out for `step` of `pipeline`: the step's
/// name and timeout, and the pipeline's global variables overridden by the
/// pipeline's and then the step's.
pub open spec fn context_for(c: StepExecutionContext, step: PipelineStep, pipeline: Pipeline) -> bool {
    &&& c.step_name@ == step.name@
    &&& c.timeout_seconds == step.timeout_seconds
    &&& c.env_overrides@ == pipeline.config.global_env@.union_prefer_right(pipeline.env@).union_prefer_right(
        step.env@,
    )
}

/// `f`, asked for attempt `a` of `step` with a context for that step,
/// returned a result that called for another attempt, after which `w` was
/// handed the delay of the next attempt in seconds, when it is not zero.
pub open spec fn retried_attempt<F, W>(f: F, w: W, step: PipelineStep, pipeline: Pipeline, a: int) -> bool where
    F: Fn(&PipelineStep, &StepExecutionContext) -> Result<StepExecutionResult, PipelineError>,
    W: Fn(u64),
 {
    exists|c: StepExecutionContext, res: StepExecutionResult|
        #![trigger f.ensures((&step, &c), Ok(res))]
        {
            &&& context_for(c, step, pipeline)
            &&& c.attempt == a
            &&& wants_retry(res, a, attempt_limit(step))
            &&& f.ensures((&step, &c), Ok(res))
            &&& retry_delay_spec(step.retry, (a + 1) as u32) > 0 ==> w.ensures(
                (retry_delay_spec(step.retry, (a + 1) as u32) as u64,),
                (),
            )
        }
}

/// `res` is what `f` returned for attempt `a`, the last, of the step named
/// `name`: the attempt is within the step's limit, its context fits the
/// step, the result calls for no further attempt, and each earlier attempt,
/// from the first (0) on, returned a result that called for another.
pub open spec fn last_attempt<F, W>(f: F, w: W, pipeline: Pipeline, name: Seq<char>, res: StepExecutionResult, a: int) -> bool where
    F: Fn(&PipelineStep, &StepExecutionContext) -> Result<StepExecutionResult, PipelineError>,
    W: Fn(u64),
 {
    exists|j: int, c: StepExecutionContext|
        #![trigger pipeline.steps@[j], f.ensures((&pipeline.steps@[j], &c), Ok(res))]
        {
            &&& 0 <= j < pipeline.steps@.len()
            &&& pipeline.steps@[j].name@ == name
            &&& context_for(c, pipeline.steps@[j], pipeline)
            &&& c.attempt == a
            &&& a < attempt_limit(pipeline.steps@[j])
            &&& !wants_retry(res, a, attempt_limit(pipeline.steps@[j]))
            &&& f.ensures((&pipeline.steps@[j], &c), Ok(res))
            &&& forall|b: int| 0 <= b < a ==> #[trigger] retried_attempt(f, w, pipeline.steps@[j], pipeline, b)
        }
}

/// `f` failed with `e` on attempt `a` of the step named `name`, each
/// earlier attempt having returned a result that called for another.
pub open spec fn failed_attempt<F, W>(f: F, w: W, pipeline: Pipeline, name: Seq<char>, e: PipelineError, a: int) -> bool where
    F: Fn(&PipelineStep, &StepExecutionContext) -> Result<StepExecutionResult, PipelineError>,
    W: Fn(u64),
 {
    exists|j: int, c: StepExecutionContext|
        #![trigger pipeline.steps@[j], f.ensures((&pipeline.steps@[j], &c), Err(e))]
        {
            &&& 0 <= j < pipeline.steps@.len()
            &&& pipeline.steps@[j].name@ == name
            &&& context_for(c, pipeline.steps@[j], pipeline)
            &&& c.attempt == a
            &&& a < attempt_limit(pipeline.steps@[j])
            &&& f.ensures((&pipeline.steps@[j], &c), Err(e))
            &&& forall|b: int| 0 <= b < a ==> #[trigger] retried_attempt(f, w, pipeline.steps@[j], pipeline, b)
        }
}

/// Sum of a sequence of integers.
pub open spec fn sum_of(s: Seq<int>) -> int
    decreases s.len(),
{
    if s.len() == 0 {
        0
    } else {
        sum_of(s.drop_last()) + s.last()
    }
}

/// How a run ended that stopped at the step named `name`, after `a` retries
/// of it, having recorded `failed` failed steps before it (`s0`, `s1`: the
/// statistics before and after): its last attempt reported `Cancelled`, the
/// run returns `Ok` and counts one cancelled step; or `f` failed on an
/// attempt, and the run returns that error; or its last attempt failed, the
/// step is critical and the pipeline does not continue on error, and the run
/// counts one more failed step and returns a `StepError` naming the step
/// with the result's error text (`Step failed` when it has none).
pub open spec fn run_stop<F, W>(
    f: F,
    w: W,
    r: Result<(), PipelineError>,
    pipeline: Pipeline,
    name: Seq<char>,
    a: int,
    s0: ExecutionStats,
    s1: ExecutionStats,
    failed: nat,
) -> bool where
    F: Fn(&PipelineStep, &StepExecutionContext) -> Result<StepExecutionResult, PipelineError>,
    W: Fn(u64),
 {
    ||| {
        &&& r is Ok
        &&& s1.cancelled_steps == s0.cancelled_steps + 1
        &&& s1.failed_steps == s0.failed_steps + failed
        &&& exists|res: StepExecutionResult|
            #![trigger last_attempt(f, w, pipeline, name, res, a)]
            res.status == StepStatus::Cancelled && last_attempt(f, w, pipeline, name, res, a)
    }
    ||| {
        &&& r matches Err(e) && failed_attempt(f, w, pipeline, name, e, a)
        &&& s1.cancelled_steps == s0.cancelled_steps
        &&& s1.failed_steps == s0.failed_steps + failed
    }
    ||| {
        &&& r matches Err(PipelineError::StepError { step, reason }) && step@ == name && exists|
            res: StepExecutionResult,
        |
            #![trigger last_attempt(f, w, pipeline, name, res, a)]
            res.status == StepStatus::Failed && reason@ == text_or(res.error, "Step failed"@)
                && last_attempt(f, w, pipeline, name, res, a)
        &&& !pipeline.config.continue_on_error
        &&& !not_critical(pipeline.steps@, name)
        &&& s1.cancelled_steps == s0.cancelled_steps
        &&& s1.failed_steps == s0.failed_steps + failed + 1
    }
}

/// The calls a sequential run over a valid pipeline made to `f`, along the
/// plan's step names `plan`, from executor `e0` to `e1`: each recorded step
/// was run up to its last attempt and its result recorded, and the
/// statistics count the recorded results and the retries made.  The run
/// either went through the whole plan (or did nothing when `e0` was
/// cancelled) and returns `Ok`, or stopped at the first step not recorded
/// (see `run_stop`).
pub open spec fn run_calls<F, W>(
    f: F,
    w: W,
    r: Result<(), PipelineError>,
    pipeline: Pipeline,
    plan: Seq<String>,
    e0: PipelineExecutor,
    e1: PipelineExecutor,
) -> bool where
    F: Fn(&PipelineStep, &StepExecutionContext) -> Result<StepExecutionResult, PipelineError>,
    W: Fn(u64),
 {
    let n0 = e0.order_view().len();
    let added = e1.order_view().subrange(n0 as int, e1.order_view().len() as int);
    let m = added.len();
    let s0 = e0.stats_view();
    let s1 = e1.stats_view();
    let failed = count_recorded(added, e1.results_view(), StepStatus::Failed);
    &&& s1.steps_executed == s0.steps_executed + count_recorded(added, e1.results_view(), StepStatus::Success)
    &&& s1.skipped_steps == s0.skipped_steps + count_recorded(added, e1.results_view(), StepStatus::Skipped)
    &&& exists|tries: Seq<int>|
        #![trigger sum_of(tries)]
        {
            &&& s1.retried_steps == s0.retried_steps + sum_of(tries)
            &&& forall|k: int|
                0 <= k < m ==> last_attempt(f, w, pipeline, plan[k]@, e1.results_view()[plan[k]@], #[trigger] tries[k])
            &&& {
                ||| {
                    &&& tries.len() == m
                    &&& r is Ok
                    &&& e0.cancelled_view() || m == plan.len()
                    &&& s1.cancelled_steps == s0.cancelled_steps
                    &&& s1.failed_steps == s0.failed_steps + failed
                }
                ||| {
                    &&& tries.len() == m + 1
                    &&& m < plan.len()
                    &&& run_stop(f, w, r, pipeline, plan[m as int]@, tries[m as int], s0, s1, failed)
                }
            }
        }
}

/// No step named `n` is critical.
pub open spec fn not_critical(steps: Seq<PipelineStep>, n: Seq<char>) -> bool {
    forall|i: int| 0 <= i < steps.len() && (#[trigger] steps[i]).name@ == n ==> !steps[i].critical
}

/// The outcome of a sequential run over a valid pipeline, given the plan's
/// step names `plan` and the executor before (`e0`) and after (`e1`).
pub open spec fn run_matches(
    r: Result<(), PipelineError>,
    pipeline: Pipeline,
    plan: Seq<String>,
    e0: PipelineExecutor,
    e1: PipelineExecutor,
) -> bool {
    let n0 = e0.order_view().len();
    let added = e1.order_view().subrange(n0 as int, e1.order_view().len() as int);
    &&& n0 <= e1.order_view().len()
    &&& e1.order_view().subrange(0, n0 as int) == e0.order_view()
    &&& added.len() <= plan.len()
    &&& forall|k: int| 0 <= k < added.len() ==> (#[trigger] added[k])@ == plan[k]@
    &&& e1.cancelled_view() == e0.cancelled_view()
    &&& e0.cancelled_view() ==> r is Ok && added.len() == 0 && e1.stats_view() == (ExecutionStats {
        total_execution_time_ms: e1.stats_view().total_execution_time_ms,
        ..e0.stats_view()
    })
    &&& e1.stats_view().retried_steps <= e0.stats_view().retried_steps + attempts_total(pipeline.steps@)
    &&& r is Ok ==> {
        &&& e1.stats_view().steps_executed == e0.stats_view().steps_executed + count_recorded(
            added,
            e1.results_view(),
            StepStatus::Success,
        )
        &&& e1.stats_view().failed_steps == e0.stats_view().failed_steps + count_recorded(
            added,
            e1.results_view(),
            StepStatus::Failed,
        )
        &&& e1.stats_view().skipped_steps == e0.stats_view().skipped_steps + count_recorded(
            added,
            e1.results_view(),
            StepStatus::Skipped,
        )
        &&& forall|k: int|
            0 <= k < added.len() && e1.results_view()[(#[trigger] added[k])@].status == StepStatus::Failed
                ==> pipeline.config.continue_on_error || not_critical(pipeline.steps@, added[k]@)
        &&& !e0.cancelled_view() && e1.stats_view().cancelled_steps == e0.stats_view().cancelled_steps
            ==> added.len() == plan.len()
    }
}

proof fn lemma_structure_ok_distinct(steps: Seq<PipelineStep>, i: int)
    requires
        0 <= i,
        step_structure_issue(steps, i) is None,
    ensures
        forall|a: int, b: int|
            i <= b < steps.len() && 0 <= a < b ==> (#[trigger] steps[a]).name@ != (#[trigger] steps[b]).name@,
    decreases steps.len() - i,
{
    if i < steps.len() {
        lemma_structure_ok_distinct(steps, i + 1);
    }
}

proof fn lemma_count_recorded_insert(names: Seq<String>, results: Map<Seq<char>, StepExecutionResult>, st: StepStatus, x: Seq<char>, v: StepExecutionResult)
    requires
        forall|k: int| 0 <= k < names.len() ==> (#[trigger] names[k])@ != x,
    ensures
        count_recorded(names, results.insert(x, v), st) == count_recorded(names, results, st),
    decreases names.len(),
{
    if names.len() > 0 {
        lemma_count_recorded_insert(names.drop_last(), results, st, x, v);
    }
}

impl PipelineExecutor {
    /// Runs a pipeline step by step in dependency order.  The pipeline is
    /// validated first.  Each step is run by `step_executor`, retried as its
    /// retry settings allow (waiting through `wait` for the retry delay in
    /// seconds), counted by status and recorded.  The run stops when the
    /// executor is cancelled, when a step reports `Cancelled` (that step is
    /// counted, not recorded), when the step executor fails, or with a
    /// `StepError` when a critical step fails and the pipeline does not
    /// continue on error.
    pub fn execute_pipeline<F, W>(&mut self, pipeline: &Pipeline, step_executor: F, wait: W) -> (r: Result<(), PipelineError>) where
        F: Fn(&PipelineStep, &StepExecutionContext) -> Result<StepExecutionResult, PipelineError>,
        W: Fn(u64),

        requires
            forall|s: &PipelineStep, c: &StepExecutionContext| #[trigger] step_executor.requires((s, c)),
            forall|d: u64| #[trigger] wait.requires((d,)),
            validation_issue(*pipeline) is None ==> total_estimate(pipeline.steps@) <= u64::MAX && run_fits(
                old(self).stats_view(),
                pipeline.steps@,
            ),
        ensures
            final(self).results_view().dom() == texts(final(self).order_view()).to_set(),
            final(self).simple_failures_view() == old(self).simple_failures_view(),
            validation_issue(*pipeline) is None && pipeline.steps@.len() == 0 ==> r is Ok,
            match validation_issue(*pipeline) {
                Some(i) => {
                    &&& r matches Err(e) && error_matches(e, i)
                    &&& final(self).stats_view() == old(self).stats_view()
                    &&& final(self).results_view() == old(self).results_view()
                    &&& final(self).order_view() == old(self).order_view()
                    &&& final(self).cancelled_view() == old(self).cancelled_view()
                },
                None => exists|plan: Seq<String>|
                    #![trigger names_in_dependency_order(plan, pipeline.steps@)]
                    {
                        &&& names_in_dependency_order(plan, pipeline.steps@)
                        &&& run_matches(r, *pipeline, plan, *old(self), *final(self))
                        &&& run_calls(step_executor, wait, r, *pipeline, plan, *old(self), *final(self))
                    },
            },
    {
        proof {
            use_type_invariant(&*self);
        }
        let start_time = now();
        let plan = match Self::create_execution_plan(pipeline) {
            Ok(p) => p,
            Err(e) => {
                return Err(e);
            },
        };
        let ghost steps = pipeline.steps@;
        let ghost names = plan.ordered_steps@;
        let ghost order = choose|order: Seq<usize>|
            is_topological_order(steps, order) && order.len() == names.len() && forall|k: int|
                0 <= k < order.len() ==> (#[trigger] names[k])@ == steps[order[k] as int].name@;
        let ghost e0 = *old(self);
        proof {
            assert(steps.len() == pipeline.steps.len());
            lemma_order_len(steps, order);
            lemma_structure_ok_distinct(steps, 0);
            assert forall|a: int, b: int| 0 <= a < b < names.len() implies names[a]@ != names[b]@ by {
                assert(is_node(steps, order[a] as int));
                assert(is_node(steps, order[b] as int));
                assert(names[a]@ == steps[order[a] as int].name@);
                assert(names[b]@ == steps[order[b] as int].name@);
            }
            lemma_attempts_at_le(steps, order);
            assert(order.subrange(0, 0) =~= Seq::<usize>::empty());
            assert(e0.order_view().subrange(0, e0.order_view().len() as int) =~= e0.order_view());
        }
        let mut i: usize = 0;
        let mut stop = false;
        let ghost mut tries: Seq<int> = Seq::empty();
        let ghost mut stop_try: int = 0;
        let ghost mut stop_res: Option<StepExecutionResult> = None;
        while i < plan.ordered_steps.len() && !stop
            invariant
                forall|s: &PipelineStep, c: &StepExecutionContext| #[trigger] step_executor.requires((s, c)),
                forall|d: u64| #[trigger] wait.requires((d,)),
                e0 == *old(self),
                pipeline.steps@ == steps,
                plan.ordered_steps@ == names,
                names_in_dependency_order(names, steps),
                validation_issue(*pipeline) is None,
                run_fits(e0.stats_view(), steps),
                is_topological_order(steps, order),
                order.len() == names.len(),
                order.len() <= steps.len(),
                steps.len() <= usize::MAX,
                forall|k: int| 0 <= k < order.len() ==> (#[trigger] names[k])@ == steps[order[k] as int].name@,
                forall|a: int, b: int| 0 <= a < b < names.len() ==> names[a]@ != names[b]@,
                forall|a: int, b: int|
                    0 <= a < b < steps.len() ==> (#[trigger] steps[a]).name@ != (#[trigger] steps[b]).name@,
                attempts_at(steps, order) <= attempts_total(steps),
                i <= names.len(),
                self.cancelled_view() == e0.cancelled_view(),
                self.simple_failures_view() == e0.simple_failures_view(),
                tries.len() == i,
                self.stats_view().retried_steps == e0.stats_view().retried_steps + sum_of(tries) + if stop
                    && !e0.cancelled_view() {
                    stop_try
                } else {
                    0int
                },
                forall|k: int|
                    0 <= k < i ==> last_attempt(
                        step_executor,
                        wait,
                        *pipeline,
                        names[k]@,
                        self.results_view()[names[k]@],
                        #[trigger] tries[k],
                    ),
                stop && !e0.cancelled_view() ==> i < names.len() && (stop_res matches Some(sr) && sr.status
                    == StepStatus::Cancelled && last_attempt(step_executor, wait, *pipeline, names[i as int]@, sr, stop_try)),
                e0.cancelled_view() ==> i == 0 && self.stats_view() == e0.stats_view()
                    && self.order_view() == e0.order_view(),
                self.order_view().len() == e0.order_view().len() + i,
                self.order_view().subrange(0, e0.order_view().len() as int) == e0.order_view(),
                forall|k: int|
                    0 <= k < i ==> (#[trigger] self.order_view()[e0.order_view().len() + k])@ == names[k]@,
                self.results_view().dom() == texts(self.order_view()).to_set(),
                !stop ==> self.stats_view().retried_steps <= e0.stats_view().retried_steps + attempts_at(
                    steps,
                    order.subrange(0, i as int),
                ),
                self.stats_view().retried_steps <= e0.stats_view().retried_steps + attempts_total(steps),
                self.stats_view().steps_executed == e0.stats_view().steps_executed + count_recorded(
                    names.subrange(0, i as int),
                    self.results_view(),
                    StepStatus::Success,
                ),
                self.stats_view().failed_steps == e0.stats_view().failed_steps + count_recorded(
                    names.subrange(0, i as int),
                    self.results_view(),
                    StepStatus::Failed,
                ),
                self.stats_view().skipped_steps == e0.stats_view().skipped_steps + count_recorded(
                    names.subrange(0, i as int),
                    self.results_view(),
                    StepStatus::Skipped,
                ),
                self.stats_view().cancelled_steps == e0.stats_view().cancelled_steps + if stop
                    && !e0.cancelled_view() {
                    1int
                } else {
                    0int
                },
                self.stats_view().total_execution_time_ms == e0.stats_view().total_execution_time_ms,
                forall|k: int|
                    0 <= k < i && self.results_view()[(#[trigger] names[k])@].status == StepStatus::Failed
                        ==> pipeline.config.continue_on_error || not_critical(steps, names[k]@),
            decreases names.len() - i, if stop { 0int } else { 1int },
        {
            proof {
                use_type_invariant(&*self);
            }
            if self.cancelled {
                stop = true;
            } else {
                let step_name = &plan.ordered_steps[i];
                let step = match pipeline.get_step(step_name.as_str()) {
                    Some(s) => s,
                    None => {
                        proof {
                            assert(steps[order[i as int] as int].name@ == step_name@);
                        }
                        return Err(
                            PipelineError::ParseError(concat3("Step '", step_name.as_str(), "' not found")),
                        );
                    },
                };
                let ghost node = order[i as int] as int;
                proof {
                    let x = choose|x: int|
                        0 <= x < steps.len() && *step == steps[x] && steps[x].name@ == step_name@ && forall|
                            j: int,
                        | 0 <= j < x ==> steps[j].name@ != step_name@;
                    assert(is_node(steps, node));
                    if x < node {
                        assert(steps[x].name@ != steps[node].name@);
                    } else if node < x {
                        assert(steps[node].name@ != steps[x].name@);
                    }
                    assert(*step == steps[node]);
                    assert(order.subrange(0, i + 1).drop_last() =~= order.subrange(0, i as int));
                    assert(order.subrange(0, i + 1).no_duplicates());
                    lemma_attempts_at_le_prefix(steps, order, i + 1);
                }
                let ghost before_retry = *self;
                let outcome = self.execute_step_with_retry(step, pipeline, &step_executor, &wait);
                let ghost delta = self.stats_view().retried_steps - before_retry.stats_view().retried_steps;
                proof {
                    let c = choose|c: StepExecutionContext|
                        {
                            &&& c.step_name@ == step.name@
                            &&& c.attempt == delta
                            &&& c.timeout_seconds == step.timeout_seconds
                            &&& c.env_overrides@ == pipeline.config.global_env@.union_prefer_right(
                                pipeline.env@,
                            ).union_prefer_right(step.env@)
                            &&& #[trigger] (&step_executor).ensures((step, &c), outcome)
                        };
                    assert(context_for(c, steps[node], *pipeline));
                    assert(step_executor.ensures((&pipeline.steps@[node], &c), outcome));
                    if outcome is Ok {
                        assert(last_attempt(step_executor, wait, *pipeline, step_name@, outcome->Ok_0, delta));
                    } else {
                        assert(failed_attempt(step_executor, wait, *pipeline, step_name@, outcome->Err_0, delta));
                    }
                    lemma_sum_push(tries, delta);
                }
                let result = match outcome {
                    Ok(res) => res,
                    Err(e) => {
                        proof {
                            lemma_run_prefix(e0, *self, names, i as int);
                            assert(run_matches(Err(e), *pipeline, names, e0, *self));
                            let t2 = tries.push(delta);
                            assert(run_stop(
                                step_executor,
                                wait,
                                Err(e),
                                *pipeline,
                                names[i as int]@,
                                t2[i as int],
                                e0.stats_view(),
                                self.stats_view(),
                                count_recorded(names.subrange(0, i as int), self.results_view(), StepStatus::Failed),
                            ));
                            lemma_run_calls(step_executor, wait, Err(e), *pipeline, names, e0, *self, t2, i as int);
                        }
                        return Err(e);
                    },
                };
                let ghost res0 = result;
                proof {
                    use_type_invariant(&*self);
                }
                let ghost names_before = names.subrange(0, i as int);
                proof {
                    lemma_count_recorded_le(names_before, self.results_view(), StepStatus::Success);
                    lemma_count_recorded_le(names_before, self.results_view(), StepStatus::Failed);
                    lemma_count_recorded_le(names_before, self.results_view(), StepStatus::Skipped);
                }
                let mut record = true;
                match result.status {
                    StepStatus::Success => {
                        self.stats.steps_executed = self.stats.steps_executed + 1;
                    },
                    StepStatus::Failed => {
                        self.stats.failed_steps = self.stats.failed_steps + 1;
                        if step.critical && !pipeline.config.continue_on_error {
                            let reason = match result.error {
                                Some(e) => e,
                                None => "Step failed".to_owned(),
                            };
                            let err = PipelineError::StepError { step: step.name.clone(), reason };
                            proof {
                                lemma_run_prefix(e0, *self, names, i as int);
                                assert(run_matches(Err(err), *pipeline, names, e0, *self));
                                assert(steps[node].critical);
                                assert(last_attempt(step_executor, wait, *pipeline, names[i as int]@, res0, delta));
                                assert(reason@ == text_or(res0.error, "Step failed"@));
                                assert(err matches PipelineError::StepError { step: sn, reason: rs } && sn@ == step.name@ && rs@ == reason@);
                                assert(pipeline.steps@[node].name@ == step.name@);
                                assert(res0.status == StepStatus::Failed);
                                assert(!not_critical(steps, names[i as int]@));
                                let t2 = tries.push(delta);
                                assert(run_stop(
                                    step_executor,
                                    wait,
                                    Err(err),
                                    *pipeline,
                                    names[i as int]@,
                                    t2[i as int],
                                    e0.stats_view(),
                                    self.stats_view(),
                                    count_recorded(names.subrange(0, i as int), self.results_view(), StepStatus::Failed),
                                ));
                                lemma_run_calls(step_executor, wait, Err(err), *pipeline, names, e0, *self, t2, i as int);
                            }
                            return Err(err);
                        }
                    },
                    StepStatus::Skipped => {
                        self.stats.skipped_steps = self.stats.skipped_steps + 1;
                    },
                    StepStatus::Cancelled => {
                        self.stats.cancelled_steps = self.stats.cancelled_steps + 1;
                        record = false;
                        stop = true;
                        proof {
                            stop_try = delta;
                            stop_res = Some(res0);
                        }
                    },
                    _ => {},
                }
                if record {
                    let ghost before = self.results_view();
                    let ghost st = result.status;
                    proof {
                        assert forall|k: int| 0 <= k < names_before.len() implies (#[trigger] names_before[k])@
                            != step_name@ by {
                            assert(names_before[k] == names[k]);
                        }
                        lemma_count_recorded_insert(names_before, before, StepStatus::Success, step_name@, result);
                        lemma_count_recorded_insert(names_before, before, StepStatus::Failed, step_name@, result);
                        lemma_count_recorded_insert(names_before, before, StepStatus::Skipped, step_name@, result);
                        assert(names.subrange(0, i + 1).drop_last() =~= names_before);
                        assert(names.subrange(0, i + 1).last() == names[i as int]);
                    }
                    self.push_result(step_name.clone(), result);
                    proof {
                        assert forall|k: int|
                            0 <= k < i + 1 && self.results_view()[(#[trigger] names[k])@].status
                                == StepStatus::Failed implies pipeline.config.continue_on_error
                            || not_critical(steps, names[k]@) by {
                            if k < i {
                                assert(names[k]@ != step_name@);
                                assert(self.results_view()[names[k]@] == before[names[k]@]);
                            } else if !pipeline.config.continue_on_error {
                                assert(self.results_view()[names[k]@] == result);
                                assert(!step.critical);
                                assert forall|j: int|
                                    0 <= j < steps.len() && (#[trigger] steps[j]).name@ == names[k]@ implies !steps[j].critical by {
                                    if j < node {
                                        assert(steps[j].name@ != steps[node].name@);
                                    } else if node < j {
                                        assert(steps[node].name@ != steps[j].name@);
                                    }
                                }
                            }
                        }
                        assert(self.order_view().subrange(0, e0.order_view().len() as int) =~= e0.order_view());
                        let t2 = tries.push(delta);
                        assert forall|k: int| 0 <= k < i + 1 implies last_attempt(
                            step_executor,
                            wait,
                            *pipeline,
                            names[k]@,
                            self.results_view()[names[k]@],
                            #[trigger] t2[k],
                        ) by {
                            if k < i {
                                assert(names[k]@ != step_name@);
                                assert(self.results_view()[names[k]@] == before[names[k]@]);
                                assert(t2[k] == tries[k]);
                            } else {
                                assert(self.results_view()[names[k]@] == res0);
                            }
                        }
                        tries = t2;
                    }
                    i = i + 1;
                }
            }
        }
        proof {
            use_type_invariant(&*self);
        }
        self.stats.total_execution_time_ms = elapsed_ms(&start_time);
        proof {
            let e1 = *self;
            let n0 = e0.order_view().len();
            let added = e1.order_view().subrange(n0 as int, e1.order_view().len() as int);
            lemma_run_prefix(e0, e1, names, i as int);
            assert(texts(added) =~= texts(names.subrange(0, i as int)));
            lemma_count_recorded_texts(added, names.subrange(0, i as int), e1.results_view(), StepStatus::Success);
            lemma_count_recorded_texts(added, names.subrange(0, i as int), e1.results_view(), StepStatus::Failed);
            lemma_count_recorded_texts(added, names.subrange(0, i as int), e1.results_view(), StepStatus::Skipped);
            assert forall|k: int|
                0 <= k < added.len() && e1.results_view()[(#[trigger] added[k])@].status == StepStatus::Failed
                    implies pipeline.config.continue_on_error || not_critical(pipeline.steps@, added[k]@) by {
                assert(added[k]@ == names[k]@);
            }
            assert(run_matches(Ok(()), *pipeline, names, e0, e1));
            if stop && !e0.cancelled_view() {
                let t2 = tries.push(stop_try);
                lemma_sum_push(tries, stop_try);
                let sr = stop_res->Some_0;
                assert(last_attempt(step_executor, wait, *pipeline, names[i as int]@, sr, t2[i as int]));
                assert(run_stop(
                    step_executor,
                    wait,
                    Ok(()),
                    *pipeline,
                    names[i as int]@,
                    t2[i as int],
                    e0.stats_view(),
                    e1.stats_view(),
                    count_recorded(names.subrange(0, i as int), e1.results_view(), StepStatus::Failed),
                ));
                assert forall|k: int| 0 <= k < i implies last_attempt(
                    step_executor,
                    wait,
                    *pipeline,
                    names[k]@,
                    e1.results_view()[names[k]@],
                    #[trigger] t2[k],
                ) by {
                    assert(t2[k] == tries[k]);
                }
                lemma_run_calls(step_executor, wait, Ok(()), *pipeline, names, e0, e1, t2, i as int);
            } else {
                lemma_run_calls(step_executor, wait, Ok(()), *pipeline, names, e0, e1, tries, i as int);
            }
        }
        Ok(())
    }
}

/// Law: recording a step's result counts it by its status: a success adds
/// exactly one executed step, a failure one failed step, a skip one skipped
/// step and a cancellation one cancelled step, and no other status counts
/// as executed.
pub proof fn law_recorded_result_is_counted(s: ExecutionStats, r: StepExecutionResult)
    requires
        stats_fit(s, r),
    ensures
        r.status == StepStatus::Success ==> stats_after(s, r).steps_executed == s.steps_executed + 1,
        r.status != StepStatus::Success ==> stats_after(s, r).steps_executed == s.steps_executed,
        r.status == StepStatus::Failed ==> stats_after(s, r).failed_steps == s.failed_steps + 1,
        r.status == StepStatus::Skipped ==> stats_after(s, r).skipped_steps == s.skipped_steps + 1,
        r.status == StepStatus::Cancelled ==> stats_after(s, r).cancelled_steps == s.cancelled_steps + 1,
        stats_after(s, r).total_execution_time_ms == s.total_execution_time_ms + r.duration_ms,
{
}

/// Law: once an executor is cancelled, a run over a valid pipeline (with the
/// plan `plan`) does nothing: it returns `Ok`, the executor stays cancelled,
/// no step is recorded, no attempt of any step is made (no retry is counted
/// and no step stopped the run), and the statistics are those before, but
/// for the elapsed time.
pub proof fn law_cancelled_run_does_nothing<F, W>(
    f: F,
    w: W,
    r: Result<(), PipelineError>,
    p: Pipeline,
    plan: Seq<String>,
    e0: PipelineExecutor,
    e1: PipelineExecutor,
) where
    F: Fn(&PipelineStep, &StepExecutionContext) -> Result<StepExecutionResult, PipelineError>,
    W: Fn(u64),

    requires
        e0.cancelled_view(),
        run_matches(r, p, plan, e0, e1),
        run_calls(f, w, r, p, plan, e0, e1),
    ensures
        r is Ok,
        e1.cancelled_view(),
        e1.order_view() == e0.order_view(),
        e1.stats_view() == (ExecutionStats {
            total_execution_time_ms: e1.stats_view().total_execution_time_ms,
            ..e0.stats_view()
        }),
{
    let n0 = e0.order_view().len();
    assert(e1.order_view().subrange(0, n0 as int) == e0.order_view());
    assert(e1.order_view() =~= e0.order_view());
}

proof fn lemma_sum_push(s: Seq<int>, x: int)
    ensures
        sum_of(s.push(x)) == sum_of(s) + x,
{
    assert(s.push(x).drop_last() =~= s);
}

proof fn lemma_run_calls<F, W>(
    f: F,
    w: W,
    r: Result<(), PipelineError>,
    p: Pipeline,
    names: Seq<String>,
    e0: PipelineExecutor,
    e1: PipelineExecutor,
    tries: Seq<int>,
    i: int,
) where
    F: Fn(&PipelineStep, &StepExecutionContext) -> Result<StepExecutionResult, PipelineError>,
    W: Fn(u64),

    requires
        0 <= i <= names.len(),
        e1.order_view().len() == e0.order_view().len() + i,
        e1.order_view().subrange(0, e0.order_view().len() as int) == e0.order_view(),
        forall|k: int| 0 <= k < i ==> (#[trigger] e1.order_view()[e0.order_view().len() + k])@ == names[k]@,
        e1.stats_view().steps_executed == e0.stats_view().steps_executed + count_recorded(
            names.subrange(0, i),
            e1.results_view(),
            StepStatus::Success,
        ),
        e1.stats_view().skipped_steps == e0.stats_view().skipped_steps + count_recorded(
            names.subrange(0, i),
            e1.results_view(),
            StepStatus::Skipped,
        ),
        e1.stats_view().retried_steps == e0.stats_view().retried_steps + sum_of(tries),
        forall|k: int|
            0 <= k < i ==> last_attempt(f, w, p, names[k]@, e1.results_view()[names[k]@], #[trigger] tries[k]),
        ({
            let failed = count_recorded(names.subrange(0, i), e1.results_view(), StepStatus::Failed);
            ||| {
                &&& tries.len() == i
                &&& r is Ok
                &&& e0.cancelled_view() || i == names.len()
                &&& e1.stats_view().cancelled_steps == e0.stats_view().cancelled_steps
                &&& e1.stats_view().failed_steps == e0.stats_view().failed_steps + failed
            }
            ||| {
                &&& tries.len() == i + 1
                &&& i < names.len()
                &&& run_stop(f, w, r, p, names[i]@, tries[i], e0.stats_view(), e1.stats_view(), failed)
            }
        }),
    ensures
        run_calls(f, w, r, p, names, e0, e1),
{
    lemma_run_prefix(e0, e1, names, i);
    let n0 = e0.order_view().len();
    let added = e1.order_view().subrange(n0 as int, e1.order_view().len() as int);
    assert(texts(added) =~= texts(names.subrange(0, i)));
    lemma_count_recorded_texts(added, names.subrange(0, i), e1.results_view(), StepStatus::Success);
    lemma_count_recorded_texts(added, names.subrange(0, i), e1.results_view(), StepStatus::Failed);
    lemma_count_recorded_texts(added, names.subrange(0, i), e1.results_view(), StepStatus::Skipped);
    assert(sum_of(tries) == sum_of(tries));
}

proof fn lemma_count_recorded_le(names: Seq<String>, results: Map<Seq<char>, StepExecutionResult>, st: StepStatus)
    ensures
        count_recorded(names, results, st) <= names.len(),
    decreases names.len(),
{
    if names.len() > 0 {
        lemma_count_recorded_le(names.drop_last(), results, st);
    }
}

proof fn lemma_run_prefix(e0: PipelineExecutor, e1: PipelineExecutor, names: Seq<String>, i: int)
    requires
        0 <= i <= names.len(),
        e1.order_view().len() == e0.order_view().len() + i,
        e1.order_view().subrange(0, e0.order_view().len() as int) == e0.order_view(),
        forall|k: int| 0 <= k < i ==> (#[trigger] e1.order_view()[e0.order_view().len() + k])@ == names[k]@,
    ensures
        ({
            let n0 = e0.order_view().len();
            let added = e1.order_view().subrange(n0 as int, e1.order_view().len() as int);
            &&& added.len() == i
            &&& forall|k: int| 0 <= k < added.len() ==> (#[trigger] added[k])@ == names[k]@
        }),
{
    let n0 = e0.order_view().len();
    let added = e1.order_view().subrange(n0 as int, e1.order_view().len() as int);
    assert forall|k: int| 0 <= k < added.len() implies (#[trigger] added[k])@ == names[k]@ by {
        assert(added[k] == e1.order_view()[n0 + k]);
    }
}

proof fn lemma_attempts_at_le_prefix(steps: Seq<PipelineStep>, order: Seq<usize>, m: int)
    requires
        steps.len() <= usize::MAX,
        0 <= m <= order.len(),
        order.no_duplicates(),
        forall|k: int| 0 <= k < order.len() ==> order[k] < steps.len(),
    ensures
        attempts_at(steps, order.subrange(0, m)) <= attempts_total(steps),
{
    let p = order.subrange(0, m);
    assert forall|a: int, b: int| 0 <= a < p.len() && 0 <= b < p.len() && a != b implies p[a] != p[b] by {
        assert(p[a] == order[a]);
        assert(p[b] == order[b]);
    }
    assert forall|k: int| 0 <= k < p.len() implies p[k] < steps.len() by {
        assert(p[k] == order[k]);
    }
    lemma_attempts_at_le(steps, p);
}

proof fn lemma_count_recorded_texts(a: Seq<String>, b: Seq<String>, results: Map<Seq<char>, StepExecutionResult>, st: StepStatus)
    requires
        texts(a) == texts(b),
    ensures
        count_recorded(a, results, st) == count_recorded(b, results, st),
    decreases a.len(),
{
    assert(a.len() == texts(a).len());
    assert(b.len() == texts(b).len());
    if a.len() > 0 {
        assert(texts(a.drop_last()) =~= texts(b.drop_last())) by {
            assert forall|k: int| 0 <= k < a.len() - 1 implies a.drop_last()[k]@ == b.drop_last()[k]@ by {
                assert(texts(a)[k] == texts(b)[k]);
            }
        }
        assert(texts(a)[a.len() - 1] == texts(b)[a.len() - 1]);
        lemma_count_recorded_texts(a.drop_last(), b.drop_last(), results, st);
    }
}


/// Totals of a run.
#[derive(Debug, Clone)]
pub struct ExecutionSummary {
    /// Steps recorded: executed, failed, skipped and cancelled, each once.
    pub total_steps: u64,
    /// Steps that succeeded.
    pub successful_steps: u64,
    /// Steps that failed.
    pub failed_steps: u64,
    /// Steps that were skipped.
    pub skipped_steps: u64,
    /// Steps that were cancelled.
    pub cancelled_steps: u64,
    /// Retries performed.
    pub retried_steps: u64,
    /// Total execution time in milliseconds.
    pub total_duration_ms: u64,
    /// Names of the steps in the order they were recorded.
    pub execution_order: Vec<String>,
}

impl ExecutionSummary {
    /// The share of successful steps among all steps, as a fraction
    /// `(successful, total)`; `(0, 0)` stands for no steps, a rate of 0.
    pub fn success_ratio(&self) -> (r: (u64, u64))
        ensures
            r == (self.successful_steps, self.total_steps),
    {
        (self.successful_steps, self.total_steps)
    }
}

impl PipelineExecutor {
    /// The totals of the run so far.
    pub fn execution_summary(&self) -> (r: ExecutionSummary)
        requires
            self.stats_view().steps_executed + self.stats_view().failed_steps + self.stats_view().skipped_steps
                + self.stats_view().cancelled_steps <= u64::MAX,
        ensures
            r.total_steps == self.stats_view().steps_executed + self.stats_view().failed_steps
                + self.stats_view().skipped_steps + self.stats_view().cancelled_steps
                - self.simple_failures_view(),
            r.successful_steps == self.stats_view().steps_executed - self.simple_failures_view(),
            r.failed_steps == self.stats_view().failed_steps,
            r.skipped_steps == self.stats_view().skipped_steps,
            r.cancelled_steps == self.stats_view().cancelled_steps,
            r.retried_steps == self.stats_view().retried_steps,
            r.total_duration_ms == self.stats_view().total_execution_time_ms,
            texts(r.execution_order@) == texts(self.order_view()),
    {
        proof {
            use_type_invariant(self);
        }
        let st = &self.stats;
        let sf = self.simple_failures;
        let order = self.execution_order();
        let mut copy: Vec<String> = Vec::new();
        let mut i: usize = 0;
        while i < order.len()
            invariant
                i <= order@.len(),
                copy@.len() == i,
                forall|k: int| 0 <= k < i ==> (#[trigger] copy@[k])@ == order@[k]@,
            decreases order@.len() - i,
        {
            copy.push(order[i].clone());
            i = i + 1;
        }
        assert(texts(copy@) =~= texts(order@));
        ExecutionSummary {
            total_steps: st.steps_executed - sf + st.failed_steps + st.skipped_steps + st.cancelled_steps,
            successful_steps: st.steps_executed - sf,
            failed_steps: st.failed_steps,
            skipped_steps: st.skipped_steps,
            cancelled_steps: st.cancelled_steps,
            retried_steps: st.retried_steps,
            total_duration_ms: st.total_execution_time_ms,
            execution_order: copy,
        }
    }
}

} // verus!
