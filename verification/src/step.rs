//! Pipelines and their steps.
use vstd::prelude::*;
use vstd::arithmetic::power2::pow2;
use crate::config::{PipelineConfig, RetryConfig, RetryCondition};
use crate::strmap::StrMap;
use crate::text::{str_contains, str_eq, seq_contains, parse_u64, parse_u64_spec};
use crate::error::PipelineError;

verus! {

/// Execution status of a step.
#[derive(Debug, Clone, Copy, PartialEq, Eq, Structural)]
pub enum StepStatus {
    /// Not started yet.
    Pending,
    /// Currently running.
    Running,
    /// Completed successfully.
    Success,
    /// Failed.
    Failed,
    /// Skipped because of its condition or its dependencies.
    Skipped,
    /// Cancelled.
    Cancelled,
    /// Waiting for its dependencies.
    Waiting,
}

/// Lower-case name of a status.
pub open spec fn status_name(s: StepStatus) -> Seq<char> {
    match s {
        StepStatus::Pending => "pending"@,
        StepStatus::Running => "running"@,
        StepStatus::Success => "success"@,
        StepStatus::Failed => "failed"@,
        StepStatus::Skipped => "skipped"@,
        StepStatus::Cancelled => "cancelled"@,
        StepStatus::Waiting => "waiting"@,
    }
}

impl StepStatus {
    /// The initial status, `Pending`.
    pub fn initial() -> (r: Self)
        ensures
            r == StepStatus::Pending,
    {
        StepStatus::Pending
    }

    /// Lower-case name of the status, as shown to users.
    pub fn as_str(&self) -> (r: &'static str)
        ensures
            r@ == status_name(*self),
    {
        match self {
            StepStatus::Pending => "pending",
            StepStatus::Running => "running",
            StepStatus::Success => "success",
            StepStatus::Failed => "failed",
            StepStatus::Skipped => "skipped",
            StepStatus::Cancelled => "cancelled",
            StepStatus::Waiting => "waiting",
        }
    }
}

impl Default for StepStatus {
    fn default() -> (r: Self)
        ensures
            r == StepStatus::Pending,
    {
        StepStatus::Pending
    }
}

/// One step of a pipeline.
#[derive(Debug, Clone)]
pub struct PipelineStep {
    /// Step name.
    pub name: String,
    /// Optional description.
    pub description: Option<String>,
    /// Lua condition that decides whether the step runs.
    pub condition: Option<String>,
    /// Step-specific environment variables.
    pub env: StrMap<String>,
    /// Whether the step may run in parallel with others.
    pub parallel: bool,
    /// Names of the steps that must complete first.
    pub depends_on: Vec<String>,
    /// Reference to the step's action, run by the runtime.
    pub action: Option<String>,
    /// Retry settings.
    pub retry: RetryConfig,
    /// Step timeout, overriding the pipeline's.
    pub timeout_seconds: Option<u64>,
    /// Whether the pipeline fails when this step fails.
    pub critical: bool,
    /// Metadata and tags.
    pub metadata: StrMap<String>,
    /// Working directory, relative to the pipeline's.
    pub working_directory: Option<String>,
}

/// Whether an optional string holds exactly the text `t`.
pub open spec fn opt_str_is(o: Option<String>, t: Seq<char>) -> bool {
    o matches Some(s) && s@ == t
}

/// The names in `deps`, as character sequences.
pub open spec fn name_views(deps: Seq<String>) -> Seq<Seq<char>> {
    deps.map_values(|d: String| d@)
}

/// Whether some entry of `names` has the text `n`.
pub open spec fn names_contain(names: Seq<String>, n: Seq<char>) -> bool {
    exists|j: int| 0 <= j < names.len() && (#[trigger] names[j])@ == n
}

/// Whether one retry condition admits a retry after the given failure.
pub open spec fn condition_matches(c: RetryCondition, error: Seq<char>, exit_code: Option<i32>) -> bool {
    match c {
        RetryCondition::AnyFailure => true,
        RetryCondition::ExitCodes(codes) => exit_code matches Some(code) && codes@.contains(code),
        RetryCondition::ErrorPattern(p) => seq_contains(error, p@),
        RetryCondition::Timeout => seq_contains(error, "timeout"@) || seq_contains(
            error,
            "timed out"@,
        ),
        RetryCondition::LuaCondition(_) => false,
    }
}

/// Whether the retry settings admit a retry after failed attempt `attempt`.
pub open spec fn retry_allowed(retry: RetryConfig, attempt: u32, error: Seq<char>, exit_code: Option<i32>) -> bool {
    attempt < retry.max_attempts && exists|i: int|
        0 <= i < retry.retry_conditions@.len() && condition_matches(
            #[trigger] retry.retry_conditions@[i],
            error,
            exit_code,
        )
}

/// Delay before retry `attempt`: doubled per attempt and capped under
/// exponential backoff, constant otherwise.
pub open spec fn retry_delay_spec(retry: RetryConfig, attempt: u32) -> int {
    if retry.exponential_backoff {
        let d = retry.delay_seconds * pow2(attempt as nat);
        if d <= retry.max_delay_seconds {
            d
        } else {
            retry.max_delay_seconds as int
        }
    } else {
        retry.delay_seconds as int
    }
}

fn contains_code(codes: &Vec<i32>, code: i32) -> (r: bool)
    ensures
        r == codes@.contains(code),
{
    let mut i: usize = 0;
    while i < codes.len()
        invariant
            i <= codes@.len(),
            forall|j: int| 0 <= j < i ==> codes@[j] != code,
        decreases codes@.len() - i,
    {
        if codes[i] == code {
            return true;
        }
        i = i + 1;
    }
    false
}

fn condition_holds(c: &RetryCondition, error: &str, exit_code: Option<i32>) -> (r: bool)
    ensures
        r == condition_matches(*c, error@, exit_code),
{
    match c {
        RetryCondition::AnyFailure => true,
        RetryCondition::ExitCodes(codes) => match exit_code {
            Some(code) => contains_code(codes, code),
            None => false,
        },
        RetryCondition::ErrorPattern(p) => str_contains(error, p.as_str()),
        RetryCondition::Timeout => str_contains(error, "timeout") || str_contains(error, "timed out"),
        RetryCondition::LuaCondition(_) => false,
    }
}

/// Whether `names` holds an entry with the text of `n`.
pub fn contains_name(names: &[String], n: &str) -> (r: bool)
    ensures
        r == names_contain(names@, n@),
{
    let mut i: usize = 0;
    while i < names.len()
        invariant
            i <= names@.len(),
            forall|j: int| 0 <= j < i ==> (#[trigger] names@[j])@ != n@,
        decreases names@.len() - i,
    {
        if str_eq(names[i].as_str(), n) {
            return true;
        }
        i = i + 1;
    }
    false
}

impl PipelineStep {
    /// A step with only a name: no description, condition, environment,
    /// dependencies, action, metadata, timeout or working directory; not
    /// parallel, not critical, default retry settings.
    pub open spec fn is_plain(self) -> bool {
        &&& self.description is None
        &&& self.condition is None
        &&& self.env@ == Map::<Seq<char>, String>::empty()
        &&& !self.parallel
        &&& self.depends_on@.len() == 0
        &&& self.action is None
        &&& self.retry.is_default()
        &&& self.timeout_seconds is None
        &&& !self.critical
        &&& self.metadata@ == Map::<Seq<char>, String>::empty()
        &&& self.working_directory is None
    }

    /// Creates a step with the given name and default settings.
    pub fn new(name: &str) -> (r: Self)
        ensures
            r.name@ == name@,
            r.is_plain(),
    {
        PipelineStep {
            name: name.to_owned(),
            description: None,
            condition: None,
            env: StrMap::new(),
            parallel: false,
            depends_on: Vec::new(),
            action: None,
            retry: RetryConfig::new(),
            timeout_seconds: None,
            critical: false,
            metadata: StrMap::new(),
            working_directory: None,
        }
    }

    /// Sets the description.
    pub fn with_description(self, description: &str) -> (r: Self)
        ensures
            opt_str_is(r.description, description@),
            r == (PipelineStep { description: r.description, ..self }),
    {
        PipelineStep { description: Some(description.to_owned()), ..self }
    }

    /// Sets the Lua condition.
    pub fn with_condition(self, condition: &str) -> (r: Self)
        ensures
            opt_str_is(r.condition, condition@),
            r == (PipelineStep { condition: r.condition, ..self }),
    {
        PipelineStep { condition: Some(condition.to_owned()), ..self }
    }

    /// Adds a dependency after the existing ones.
    pub fn with_dependency(self, dep: &str) -> (r: Self)
        ensures
            r.depends_on@.len() == self.depends_on@.len() + 1,
            r.depends_on@.drop_last() == self.depends_on@,
            r.depends_on@.last()@ == dep@,
            r == (PipelineStep { depends_on: r.depends_on, ..self }),
    {
        let mut s = self;
        s.depends_on.push(dep.to_owned());
        s
    }

    /// Adds several dependencies after the existing ones.
    pub fn with_dependencies(self, deps: Vec<String>) -> (r: Self)
        ensures
            r.depends_on@ == self.depends_on@ + deps@,
            r == (PipelineStep { depends_on: r.depends_on, ..self }),
    {
        let mut s = self;
        let mut deps = deps;
        s.depends_on.append(&mut deps);
        s
    }

    /// Adds a step environment variable.
    pub fn with_env_var(self, key: &str, value: &str) -> (r: Self)
        ensures
            r.env@.contains_key(key@),
            r.env@ == self.env@.insert(key@, r.env@[key@]),
            r.env@[key@]@ == value@,
            r == (PipelineStep { env: r.env, ..self }),
    {
        let mut s = self;
        s.env.insert(key.to_owned(), value.to_owned());
        s
    }

    /// Sets the action reference.
    pub fn with_action(self, action: &str) -> (r: Self)
        ensures
            opt_str_is(r.action, action@),
            r == (PipelineStep { action: r.action, ..self }),
    {
        PipelineStep { action: Some(action.to_owned()), ..self }
    }

    /// Sets the retry settings.
    pub fn with_retry(self, retry: RetryConfig) -> (r: Self)
        ensures
            r == (PipelineStep { retry, ..self }),
    {
        PipelineStep { retry, ..self }
    }

    /// Marks the step as critical or not.
    pub fn with_critical(self, critical: bool) -> (r: Self)
        ensures
            r == (PipelineStep { critical, ..self }),
    {
        PipelineStep { critical, ..self }
    }

    /// Allows or forbids parallel execution.
    pub fn with_parallel(self, parallel: bool) -> (r: Self)
        ensures
            r == (PipelineStep { parallel, ..self }),
    {
        PipelineStep { parallel, ..self }
    }

    /// Sets the step timeout.
    pub fn with_timeout(self, seconds: u64) -> (r: Self)
        ensures
            r == (PipelineStep { timeout_seconds: Some(seconds), ..self }),
    {
        PipelineStep { timeout_seconds: Some(seconds), ..self }
    }

    /// Sets the working directory.
    pub fn with_working_directory(self, dir: &str) -> (r: Self)
        ensures
            opt_str_is(r.working_directory, dir@),
            r == (PipelineStep { working_directory: r.working_directory, ..self }),
    {
        PipelineStep { working_directory: Some(dir.to_owned()), ..self }
    }

    /// Adds a metadata entry.
    pub fn with_metadata(self, key: &str, value: &str) -> (r: Self)
        ensures
            r.metadata@.contains_key(key@),
            r.metadata@ == self.metadata@.insert(key@, r.metadata@[key@]),
            r.metadata@[key@]@ == value@,
            r == (PipelineStep { metadata: r.metadata, ..self }),
    {
        let mut s = self;
        s.metadata.insert(key.to_owned(), value.to_owned());
        s
    }

    /// Whether every dependency of the step is among `completed_steps`.
    pub fn can_run(&self, completed_steps: &[String]) -> (r: bool)
        ensures
            r == forall|i: int|
                0 <= i < self.depends_on@.len() ==> names_contain(
                    completed_steps@,
                    (#[trigger] self.depends_on@[i])@,
                ),
    {
        let mut i: usize = 0;
        while i < self.depends_on.len()
            invariant
                i <= self.depends_on@.len(),
                forall|j: int|
                    0 <= j < i ==> names_contain(completed_steps@, (#[trigger] self.depends_on@[j])@),
            decreases self.depends_on@.len() - i,
        {
            if !contains_name(completed_steps, self.depends_on[i].as_str()) {
                return false;
            }
            i = i + 1;
        }
        true
    }

    /// The step timeout, or the pipeline timeout when the step has none.
    pub fn effective_timeout(&self, pipeline_timeout: u64) -> (r: u64)
        ensures
            r == match self.timeout_seconds {
                Some(t) => t,
                None => pipeline_timeout,
            },
    {
        match self.timeout_seconds {
            Some(t) => t,
            None => pipeline_timeout,
        }
    }

    /// Whether failed attempt `attempt` should be retried: attempts remain and
    /// some retry condition matches the error text or exit code.
    pub fn should_retry(&self, attempt: u32, error: &str, exit_code: Option<i32>) -> (r: bool)
        ensures
            r == retry_allowed(self.retry, attempt, error@, exit_code),
    {
        if attempt >= self.retry.max_attempts {
            return false;
        }
        let mut i: usize = 0;
        while i < self.retry.retry_conditions.len()
            invariant
                attempt < self.retry.max_attempts,
                i <= self.retry.retry_conditions@.len(),
                forall|j: int|
                    0 <= j < i ==> !condition_matches(
                        #[trigger] self.retry.retry_conditions@[j],
                        error@,
                        exit_code,
                    ),
            decreases self.retry.retry_conditions@.len() - i,
        {
            if condition_holds(&self.retry.retry_conditions[i], error, exit_code) {
                assert(condition_matches(self.retry.retry_conditions@[i as int], error@, exit_code));
                return true;
            }
            i = i + 1;
        }
        false
    }

    /// Delay in seconds before retry `attempt`: with exponential backoff the
    /// base delay doubled `attempt` times and capped at the maximum delay
    /// (however large the doubled value grows); otherwise the base delay.
    pub fn retry_delay(&self, attempt: u32) -> (r: u64)
        ensures
            r == retry_delay_spec(self.retry, attempt),
    {
        if self.retry.exponential_backoff {
            capped_doubling(self.retry.delay_seconds, attempt, self.retry.max_delay_seconds)
        } else {
            self.retry.delay_seconds
        }
    }
}

/// `base * 2^exp`, or `cap` when that is larger than `cap`.
fn capped_doubling(base: u64, exp: u32, cap: u64) -> (r: u64)
    ensures
        r == if base * pow2(exp as nat) <= cap {
            base * pow2(exp as nat)
        } else {
            cap as int
        },
{
    proof {
        vstd::arithmetic::power2::lemma_pow2_pos(exp as nat);
        vstd::arithmetic::mul::lemma_mul_inequality(1, pow2(exp as nat) as int, base as int);
        vstd::arithmetic::mul::lemma_mul_is_commutative(base as int, pow2(exp as nat) as int);
    }
    if base == 0 {
        assert(base * pow2(exp as nat) == 0);
        return 0;
    }
    if base > cap {
        return cap;
    }
    let mut d = base;
    let mut k: u32 = 0;
    proof {
        vstd::arithmetic::power2::lemma2_to64();
    }
    while k < exp
        invariant
            k <= exp,
            0 < base,
            d == base * pow2(k as nat),
            d <= cap,
        decreases exp - k,
    {
        proof {
            vstd::arithmetic::power2::lemma_pow2_unfold((k + 1) as nat);
            assert(base * pow2((k + 1) as nat) == 2 * (base * pow2(k as nat))) by (nonlinear_arith)
                requires
                    pow2((k + 1) as nat) == 2 * pow2(k as nat),
            {
            }
        }
        if d > cap - d {
            proof {
                if k + 1 < exp {
                    vstd::arithmetic::power2::lemma_pow2_strictly_increases((k + 1) as nat, exp as nat);
                }
                assert(base * pow2((k + 1) as nat) <= base * pow2(exp as nat)) by (nonlinear_arith)
                    requires
                        pow2((k + 1) as nat) <= pow2(exp as nat),
                        0 < base,
                {
                }
            }
            return cap;
        }
        d = d + d;
        k = k + 1;
    }
    d
}

/// The steps of `steps` that satisfy `keep`, in their original order.
pub open spec fn select_steps(steps: Seq<PipelineStep>, keep: spec_fn(PipelineStep) -> bool) -> Seq<PipelineStep>
    decreases steps.len(),
{
    if steps.len() == 0 {
        Seq::empty()
    } else {
        select_steps(steps.drop_last(), keep) + if keep(steps.last()) {
            seq![steps.last()]
        } else {
            Seq::empty()
        }
    }
}

/// `out` lists (by reference) exactly the steps of `steps` that satisfy `keep`.
pub open spec fn lists_selected(out: Seq<&PipelineStep>, steps: Seq<PipelineStep>, keep: spec_fn(PipelineStep) -> bool) -> bool {
    let sel = select_steps(steps, keep);
    out.len() == sel.len() && forall|k: int| 0 <= k < sel.len() ==> *out[k] == sel[k]
}

/// A step has no dependencies.
pub open spec fn is_root(s: PipelineStep) -> bool {
    s.depends_on@.len() == 0
}

/// A step depends on the step named `name`.
pub open spec fn depends_on_name(s: PipelineStep, name: Seq<char>) -> bool {
    names_contain(s.depends_on@, name)
}

/// Metadata key holding a step's estimated duration in seconds.
pub open spec fn estimate_key() -> Seq<char> {
    "estimated_duration_seconds"@
}

/// Metadata key holding a step's status.
pub open spec fn status_key() -> Seq<char> {
    "status"@
}

/// A step's estimated duration: its metadata entry, when present and a valid
/// number of seconds.
pub open spec fn step_estimate(s: PipelineStep) -> Option<u64> {
    if s.metadata@.contains_key(estimate_key()) {
        parse_u64_spec(s.metadata@[estimate_key()]@)
    } else {
        None
    }
}

/// Sum of the estimated durations of the steps that have one.
pub open spec fn total_estimate(steps: Seq<PipelineStep>) -> nat
    decreases steps.len(),
{
    if steps.len() == 0 {
        0
    } else {
        total_estimate(steps.drop_last()) + match step_estimate(steps.last()) {
            Some(d) => d as nat,
            None => 0nat,
        }
    }
}

/// Some step has an estimated duration.
pub open spec fn has_estimate(steps: Seq<PipelineStep>) -> bool {
    exists|i: int| 0 <= i < steps.len() && (#[trigger] step_estimate(steps[i])) is Some
}

/// A step's status: its metadata entry, or `pending` when it has none.
pub open spec fn step_status_name(s: PipelineStep) -> Seq<char> {
    if s.metadata@.contains_key(status_key()) {
        s.metadata@[status_key()]@
    } else {
        "pending"@
    }
}

/// Number of steps whose status is `st`.
pub open spec fn count_status(steps: Seq<PipelineStep>, st: Seq<char>) -> nat
    decreases steps.len(),
{
    if steps.len() == 0 {
        0
    } else {
        count_status(steps.drop_last(), st) + if step_status_name(steps.last()) == st {
            1nat
        } else {
            0nat
        }
    }
}

/// A CI/CD pipeline: named steps with configuration, environment and metadata.
#[derive(Debug, Clone)]
pub struct Pipeline {
    /// Pipeline name.
    pub name: String,
    /// Optional description.
    pub description: Option<String>,
    /// Environment variables of the pipeline.
    pub env: StrMap<String>,
    /// The steps.
    pub steps: Vec<PipelineStep>,
    /// Execution options.
    pub config: PipelineConfig,
    /// Metadata (tags, labels, ...).
    pub metadata: StrMap<String>,
    /// Version or revision.
    pub version: Option<String>,
}

proof fn lemma_select_push(steps: Seq<PipelineStep>, keep: spec_fn(PipelineStep) -> bool, i: int)
    requires
        0 <= i < steps.len(),
    ensures
        select_steps(steps.subrange(0, i + 1), keep) == select_steps(steps.subrange(0, i), keep) + if keep(
            steps[i],
        ) {
            seq![steps[i]]
        } else {
            Seq::empty()
        },
{
    assert(steps.subrange(0, i + 1).drop_last() =~= steps.subrange(0, i));
}

/// The steps of `steps` that satisfy `keep`, by reference, in order.
pub(crate) fn collect_steps<'a>(steps: &'a [PipelineStep], Ghost(keep): Ghost<spec_fn(PipelineStep) -> bool>, decide: impl Fn(&PipelineStep) -> bool) -> (r: Vec<&'a PipelineStep>)
    requires
        forall|s: &PipelineStep| #[trigger] decide.requires((s,)),
        forall|s: &PipelineStep, b: bool| decide.ensures((s,), b) ==> b == keep(*s),
    ensures
        lists_selected(r@, steps@, keep),
{
    let mut out: Vec<&'a PipelineStep> = Vec::new();
    let mut i: usize = 0;
    assert(steps@.subrange(0, 0) =~= Seq::<PipelineStep>::empty());
    while i < steps.len()
        invariant
            i <= steps@.len(),
            forall|s: &PipelineStep| #[trigger] decide.requires((s,)),
            forall|s: &PipelineStep, b: bool| decide.ensures((s,), b) ==> b == keep(*s),
            lists_selected(out@, steps@.subrange(0, i as int), keep),
        decreases steps@.len() - i,
    {
        proof {
            lemma_select_push(steps@, keep, i as int);
        }
        let ghost before = out@;
        if decide(&steps[i]) {
            out.push(&steps[i]);
        }
        proof {
            let sel = select_steps(steps@.subrange(0, i + 1), keep);
            assert forall|k: int| 0 <= k < sel.len() implies *out@[k] == sel[k] by {
                if k < before.len() {
                    assert(out@[k] == before[k]);
                }
            }
        }
        i = i + 1;
    }
    assert(steps@.subrange(0, steps@.len() as int) =~= steps@);
    out
}

impl Pipeline {
    /// A pipeline with only a name: no description, environment, steps,
    /// metadata or version, default configuration.
    pub open spec fn is_plain(self) -> bool {
        &&& self.description is None
        &&& self.env@ == Map::<Seq<char>, String>::empty()
        &&& self.steps@.len() == 0
        &&& self.config.is_default()
        &&& self.metadata@ == Map::<Seq<char>, String>::empty()
        &&& self.version is None
    }

    /// Creates an empty pipeline with the given name.
    pub fn new(name: &str) -> (r: Self)
        ensures
            r.name@ == name@,
            r.is_plain(),
    {
        Pipeline {
            name: name.to_owned(),
            description: None,
            env: StrMap::new(),
            steps: Vec::new(),
            config: PipelineConfig::new(),
            metadata: StrMap::new(),
            version: None,
        }
    }

    /// Sets the description.
    pub fn with_description(self, description: &str) -> (r: Self)
        ensures
            opt_str_is(r.description, description@),
            r == (Pipeline { description: r.description, ..self }),
    {
        Pipeline { description: Some(description.to_owned()), ..self }
    }

    /// Sets the version.
    pub fn with_version(self, version: &str) -> (r: Self)
        ensures
            opt_str_is(r.version, version@),
            r == (Pipeline { version: r.version, ..self }),
    {
        Pipeline { version: Some(version.to_owned()), ..self }
    }

    /// Sets the configuration.
    pub fn with_config(self, config: PipelineConfig) -> (r: Self)
        ensures
            r == (Pipeline { config, ..self }),
    {
        Pipeline { config, ..self }
    }

    /// Appends a step.
    pub fn add_step(&mut self, step: PipelineStep)
        ensures
            final(self).steps@ == old(self).steps@.push(step),
            *final(self) == (Pipeline { steps: final(self).steps, ..*old(self) }),
    {
        self.steps.push(step);
    }

    /// Appends a step (builder form).
    pub fn with_step(self, step: PipelineStep) -> (r: Self)
        ensures
            r.steps@ == self.steps@.push(step),
            r == (Pipeline { steps: r.steps, ..self }),
    {
        let mut s = self;
        s.steps.push(step);
        s
    }

    /// Adds a pipeline environment variable.
    pub fn add_env_var(&mut self, key: &str, value: &str)
        ensures
            final(self).env@.contains_key(key@),
            final(self).env@ == old(self).env@.insert(key@, final(self).env@[key@]),
            final(self).env@[key@]@ == value@,
            *final(self) == (Pipeline { env: final(self).env, ..*old(self) }),
    {
        self.env.insert(key.to_owned(), value.to_owned());
    }

    /// Adds a pipeline environment variable (builder form).
    pub fn with_env_var(self, key: &str, value: &str) -> (r: Self)
        ensures
            r.env@.contains_key(key@),
            r.env@ == self.env@.insert(key@, r.env@[key@]),
            r.env@[key@]@ == value@,
            r == (Pipeline { env: r.env, ..self }),
    {
        let mut s = self;
        s.env.insert(key.to_owned(), value.to_owned());
        s
    }

    /// Adds a metadata entry.
    pub fn add_metadata(&mut self, key: &str, value: &str)
        ensures
            final(self).metadata@.contains_key(key@),
            final(self).metadata@ == old(self).metadata@.insert(key@, final(self).metadata@[key@]),
            final(self).metadata@[key@]@ == value@,
            *final(self) == (Pipeline { metadata: final(self).metadata, ..*old(self) }),
    {
        self.metadata.insert(key.to_owned(), value.to_owned());
    }

    /// Adds a metadata entry (builder form).
    pub fn with_metadata(self, key: &str, value: &str) -> (r: Self)
        ensures
            r.metadata@.contains_key(key@),
            r.metadata@ == self.metadata@.insert(key@, r.metadata@[key@]),
            r.metadata@[key@]@ == value@,
            r == (Pipeline { metadata: r.metadata, ..self }),
    {
        let mut s = self;
        s.metadata.insert(key.to_owned(), value.to_owned());
        s
    }

    /// The first step with the given name.
    pub fn get_step(&self, name: &str) -> (r: Option<&PipelineStep>)
        ensures
            match r {
                Some(s) => exists|i: int|
                    0 <= i < self.steps@.len() && *s == self.steps@[i] && self.steps@[i].name@ == name@
                        && forall|j: int| 0 <= j < i ==> self.steps@[j].name@ != name@,
                None => forall|i: int| 0 <= i < self.steps@.len() ==> self.steps@[i].name@ != name@,
            },
    {
        let mut i: usize = 0;
        while i < self.steps.len()
            invariant
                i <= self.steps@.len(),
                forall|j: int| 0 <= j < i ==> self.steps@[j].name@ != name@,
            decreases self.steps@.len() - i,
        {
            if str_eq(self.steps[i].name.as_str(), name) {
                return Some(&self.steps[i]);
            }
            i = i + 1;
        }
        None
    }

    /// The names of all steps, in order.
    pub fn step_names(&self) -> (r: Vec<&String>)
        ensures
            r@.len() == self.steps@.len(),
            forall|i: int| 0 <= i < r@.len() ==> *r@[i] == self.steps@[i].name,
    {
        let mut out: Vec<&String> = Vec::new();
        let mut i: usize = 0;
        while i < self.steps.len()
            invariant
                i <= self.steps@.len(),
                out@.len() == i,
                forall|j: int| 0 <= j < i ==> *out@[j] == self.steps@[j].name,
            decreases self.steps@.len() - i,
        {
            out.push(&self.steps[i].name);
            i = i + 1;
        }
        out
    }

    /// The steps without dependencies, in order.
    pub fn root_steps(&self) -> (r: Vec<&PipelineStep>)
        ensures
            lists_selected(r@, self.steps@, |s: PipelineStep| is_root(s)),
    {
        collect_steps(self.steps.as_slice(), Ghost(|s: PipelineStep| is_root(s)), |s: &PipelineStep| -> (b: bool)
            ensures b == is_root(*s)
            { s.depends_on.len() == 0 })
    }

    /// The steps that depend on the step named `step_name`, in order.
    pub fn dependent_steps(&self, step_name: &str) -> (r: Vec<&PipelineStep>)
        ensures
            lists_selected(r@, self.steps@, |s: PipelineStep| depends_on_name(s, step_name@)),
    {
        collect_steps(
            self.steps.as_slice(),
            Ghost(|s: PipelineStep| depends_on_name(s, step_name@)),
            |s: &PipelineStep| -> (b: bool)
                ensures b == depends_on_name(*s, step_name@)
                { contains_name(s.depends_on.as_slice(), step_name) },
        )
    }

    /// Sum of the estimated durations in the steps' metadata, or `None` when
    /// no step has a valid estimate.
    pub fn estimated_duration(&self) -> (r: Option<u64>)
        requires
            total_estimate(self.steps@) <= u64::MAX,
        ensures
            r == if has_estimate(self.steps@) {
                Some(total_estimate(self.steps@) as u64)
            } else {
                None::<u64>
            },
    {
        let mut total: u64 = 0;
        let mut found = false;
        let mut i: usize = 0;
        assert(self.steps@.subrange(0, 0) =~= Seq::<PipelineStep>::empty());
        while i < self.steps.len()
            invariant
                i <= self.steps@.len(),
                total == total_estimate(self.steps@.subrange(0, i as int)),
                total_estimate(self.steps@) <= u64::MAX,
                found == exists|j: int| 0 <= j < i && (#[trigger] step_estimate(self.steps@[j])) is Some,
            decreases self.steps@.len() - i,
        {
            let step = &self.steps[i];
            proof {
                assert(self.steps@.subrange(0, i + 1).drop_last() =~= self.steps@.subrange(0, i as int));
                lemma_total_estimate_prefix(self.steps@, i + 1);
            }
            match step.metadata.get("estimated_duration_seconds") {
                Some(v) => match parse_u64(v.as_str()) {
                    Some(d) => {
                        total = total + d;
                        found = true;
                    },
                    None => {},
                },
                None => {},
            }
            i = i + 1;
        }
        assert(self.steps@.subrange(0, self.steps@.len() as int) =~= self.steps@);
        if found {
            Some(total)
        } else {
            None
        }
    }

    /// Number of steps per status, taken from each step's `status` metadata
    /// (`pending` when absent).
    pub fn step_counts(&self) -> (r: StrMap<usize>)
        ensures
            forall|st: Seq<char>|
                #![trigger r@.contains_key(st)]
                r@.contains_key(st) <==> exists|i: int|
                    0 <= i < self.steps@.len() && step_status_name(self.steps@[i]) == st,
            forall|st: Seq<char>|
                #![trigger r@[st]]
                r@.contains_key(st) ==> r@[st] == count_status(self.steps@, st),
    {
        let mut counts: StrMap<usize> = StrMap::new();
        let mut i: usize = 0;
        assert(self.steps@.subrange(0, 0) =~= Seq::<PipelineStep>::empty());
        while i < self.steps.len()
            invariant
                i <= self.steps@.len(),
                forall|st: Seq<char>|
                    #![trigger counts@.contains_key(st)]
                    counts@.contains_key(st) <==> exists|j: int|
                        0 <= j < i && step_status_name(self.steps@[j]) == st,
                forall|st: Seq<char>|
                    #![trigger counts@[st]]
                    counts@.contains_key(st) ==> counts@[st] == count_status(
                        self.steps@.subrange(0, i as int),
                        st,
                    ),
            decreases self.steps@.len() - i,
        {
            let step = &self.steps[i];
            let status: String = match step.metadata.get("status") {
                Some(v) => v.clone(),
                None => "pending".to_owned(),
            };
            proof {
                assert(self.steps@.subrange(0, i + 1).drop_last() =~= self.steps@.subrange(0, i as int));
                assert(status@ == step_status_name(self.steps@[i as int]));
                lemma_count_status_le(self.steps@.subrange(0, i as int), status@);
                if !counts@.contains_key(status@) {
                    lemma_count_status_zero(self.steps@.subrange(0, i as int), status@);
                }
            }
            let prev: usize = match counts.get(status.as_str()) {
                Some(c) => *c,
                None => 0,
            };
            counts.insert(status, prev + 1);
            i = i + 1;
        }
        assert(self.steps@.subrange(0, self.steps@.len() as int) =~= self.steps@);
        counts
    }

    /// Checks the pipeline: structure, dependencies, cycles, parallel settings
    /// and step settings, in that order.
    pub fn validate(&self) -> (r: Result<(), PipelineError>)
        ensures
            crate::validator::result_matches(r, crate::validator::validation_issue(*self)),
    {
        crate::validator::PipelineValidator::validate(self)
    }
}

proof fn lemma_total_estimate_prefix(steps: Seq<PipelineStep>, k: int)
    requires
        0 <= k <= steps.len(),
    ensures
        total_estimate(steps.subrange(0, k)) <= total_estimate(steps),
    decreases steps.len() - k,
{
    if k < steps.len() {
        lemma_total_estimate_prefix(steps, k + 1);
        assert(steps.subrange(0, k + 1).drop_last() =~= steps.subrange(0, k));
    } else {
        assert(steps.subrange(0, k) =~= steps);
    }
}

proof fn lemma_count_status_le(steps: Seq<PipelineStep>, st: Seq<char>)
    ensures
        count_status(steps, st) <= steps.len(),
    decreases steps.len(),
{
    if steps.len() > 0 {
        lemma_count_status_le(steps.drop_last(), st);
    }
}

proof fn lemma_count_status_zero(steps: Seq<PipelineStep>, st: Seq<char>)
    requires
        forall|j: int| 0 <= j < steps.len() ==> step_status_name(steps[j]) != st,
    ensures
        count_status(steps, st) == 0,
    decreases steps.len(),
{
    if steps.len() > 0 {
        lemma_count_status_zero(steps.drop_last(), st);
    }
}


/// Law: a step is retried after a failure whose exit code is among the codes
/// of one of its `ExitCodes` conditions, as long as attempts remain.
pub proof fn law_listed_exit_code_is_retried(retry: RetryConfig, attempt: u32, error: Seq<char>, codes: Vec<i32>, code: i32)
    requires
        attempt < retry.max_attempts,
        retry.retry_conditions@.contains(RetryCondition::ExitCodes(codes)),
        codes@.contains(code),
    ensures
        retry_allowed(retry, attempt, error, Some(code)),
{
    let i = choose|i: int|
        0 <= i < retry.retry_conditions@.len() && retry.retry_conditions@[i] == RetryCondition::ExitCodes(codes);
    assert(condition_matches(retry.retry_conditions@[i], error, Some(code)));
}

/// Law: when a step's only retry condition is `ExitCodes(codes)`, a failure
/// with an exit code is retried only if the code is among `codes`, and one
/// without an exit code is never retried.
pub proof fn law_only_listed_exit_codes_are_retried(retry: RetryConfig, attempt: u32, error: Seq<char>, codes: Vec<i32>, exit_code: Option<i32>)
    requires
        retry.retry_conditions@ == seq![RetryCondition::ExitCodes(codes)],
        retry_allowed(retry, attempt, error, exit_code),
    ensures
        exit_code matches Some(c) && codes@.contains(c),
{
    let i = choose|i: int|
        0 <= i < retry.retry_conditions@.len() && condition_matches(
            #[trigger] retry.retry_conditions@[i],
            error,
            exit_code,
        );
    assert(i == 0);
}

/// Law: no retry is allowed once the attempts are used up, whatever the
/// failure.
pub proof fn law_no_retry_after_last_attempt(retry: RetryConfig, attempt: u32, error: Seq<char>, exit_code: Option<i32>)
    requires
        attempt >= retry.max_attempts,
    ensures
        !retry_allowed(retry, attempt, error, exit_code),
{
}

/// Law: while attempts remain, a step whose conditions include `AnyFailure`
/// is retried after any failure.
pub proof fn law_any_failure_is_retried(retry: RetryConfig, attempt: u32, error: Seq<char>, exit_code: Option<i32>)
    requires
        attempt < retry.max_attempts,
        retry.retry_conditions@.contains(RetryCondition::AnyFailure),
    ensures
        retry_allowed(retry, attempt, error, exit_code),
{
    let i = choose|i: int| 0 <= i < retry.retry_conditions@.len() && retry.retry_conditions@[i] == RetryCondition::AnyFailure;
    assert(condition_matches(retry.retry_conditions@[i], error, exit_code));
}

/// Law: while attempts remain, a step whose conditions include
/// `ErrorPattern(pattern)` is retried after a failure whose error text holds
/// `pattern` (here at position `at`).
pub proof fn law_matching_error_pattern_is_retried(
    retry: RetryConfig,
    attempt: u32,
    error: Seq<char>,
    exit_code: Option<i32>,
    pattern: String,
    at: int,
)
    requires
        attempt < retry.max_attempts,
        retry.retry_conditions@.contains(RetryCondition::ErrorPattern(pattern)),
        0 <= at,
        at + pattern@.len() <= error.len(),
        error.subrange(at, at + pattern@.len()) == pattern@,
    ensures
        retry_allowed(retry, attempt, error, exit_code),
{
    let i = choose|i: int|
        0 <= i < retry.retry_conditions@.len() && retry.retry_conditions@[i] == RetryCondition::ErrorPattern(pattern);
    assert(crate::text::occurs_at(error, pattern@, at));
    assert(condition_matches(retry.retry_conditions@[i], error, exit_code));
}

/// Law: with exponential backoff the delay never exceeds the maximum delay
/// and never shrinks from one attempt to a later one.
pub proof fn law_backoff_is_capped_and_growing(retry: RetryConfig, a: u32, b: u32)
    requires
        retry.exponential_backoff,
        a <= b,
    ensures
        retry_delay_spec(retry, b) <= retry.max_delay_seconds,
        retry_delay_spec(retry, a) <= retry_delay_spec(retry, b),
{
    if a < b {
        vstd::arithmetic::power2::lemma_pow2_strictly_increases(a as nat, b as nat);
    }
    let d = retry.delay_seconds;
    let pa = pow2(a as nat);
    let pb = pow2(b as nat);
    assert(d * pa <= d * pb) by (nonlinear_arith)
        requires
            pa <= pb,
            d >= 0,
    {
    }
}

} // verus!
