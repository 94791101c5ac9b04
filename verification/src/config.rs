//! Pipeline, parallelism and retry configuration.
use vstd::prelude::*;
use crate::strmap::StrMap;

verus! {

/// Default pipeline timeout in seconds (one hour).
pub const DEFAULT_TIMEOUT_SECONDS: u64 = 3600;

/// Default number of concurrently running steps.
pub const DEFAULT_MAX_PARALLEL: usize = 4;

/// Default time to wait on dependencies, in seconds (five minutes).
pub const DEFAULT_DEPENDENCY_TIMEOUT_SECONDS: u64 = 300;

/// Default delay between retries, in seconds.
pub const DEFAULT_RETRY_DELAY_SECONDS: u64 = 1;

/// Default upper bound of the retry delay, in seconds (one minute).
pub const DEFAULT_MAX_RETRY_DELAY_SECONDS: u64 = 60;

/// Conditions under which a failed step is retried.
#[derive(Debug, Clone)]
pub enum RetryCondition {
    /// Retry on any failure.
    AnyFailure,
    /// Retry when the step exits with one of these codes.
    ExitCodes(Vec<i32>),
    /// Retry when the error message contains this text.
    ErrorPattern(String),
    /// Retry when the step timed out.
    Timeout,
    /// A condition written in Lua, evaluated by the runtime.
    LuaCondition(String),
}

/// Strategy for failures during parallel execution.
#[derive(Debug, Clone)]
pub enum FailureStrategy {
    /// Stop everything on the first failure.
    FailFast,
    /// Keep going, but mark the pipeline as failed.
    ContinueOnFailure,
    /// Fail only when a critical step fails.
    CriticalOnly,
    /// A strategy defined by a Lua function.
    Custom(String),
}

impl FailureStrategy {
    /// The default strategy, `FailFast`.
    pub fn default_strategy() -> (r: Self)
        ensures
            r is FailFast,
    {
        FailureStrategy::FailFast
    }
}

impl Default for FailureStrategy {
    fn default() -> (r: Self)
        ensures
            r is FailFast,
    {
        FailureStrategy::FailFast
    }
}

/// Parallel execution settings of a pipeline.
#[derive(Debug, Clone)]
pub struct ParallelConfig {
    /// Whether steps may run in parallel.
    pub enabled: bool,
    /// Maximum number of steps running at once.
    pub max_concurrent: usize,
    /// Time to wait on dependencies, in seconds.
    pub dependency_timeout_seconds: u64,
    /// How failures are handled.
    pub failure_strategy: FailureStrategy,
}

impl ParallelConfig {
    /// Parallelism disabled, four concurrent steps, five-minute dependency
    /// timeout, fail fast.
    pub open spec fn is_default(self) -> bool {
        &&& !self.enabled
        &&& self.max_concurrent == DEFAULT_MAX_PARALLEL
        &&& self.dependency_timeout_seconds == DEFAULT_DEPENDENCY_TIMEOUT_SECONDS
        &&& self.failure_strategy is FailFast
    }

    /// The default parallel configuration.
    pub fn new() -> (r: Self)
        ensures
            r.is_default(),
    {
        ParallelConfig {
            enabled: false,
            max_concurrent: DEFAULT_MAX_PARALLEL,
            dependency_timeout_seconds: DEFAULT_DEPENDENCY_TIMEOUT_SECONDS,
            failure_strategy: FailureStrategy::FailFast,
        }
    }

    /// Enables parallel execution with the given concurrency.
    pub fn with_concurrency(self, max_concurrent: usize) -> (r: Self)
        ensures
            r == (ParallelConfig { enabled: true, max_concurrent, ..self }),
    {
        ParallelConfig { enabled: true, max_concurrent, ..self }
    }

    /// Sets the dependency timeout.
    pub fn with_dependency_timeout(self, seconds: u64) -> (r: Self)
        ensures
            r == (ParallelConfig { dependency_timeout_seconds: seconds, ..self }),
    {
        ParallelConfig { dependency_timeout_seconds: seconds, ..self }
    }

    /// Sets the failure strategy.
    pub fn with_failure_strategy(self, strategy: FailureStrategy) -> (r: Self)
        ensures
            r == (ParallelConfig { failure_strategy: strategy, ..self }),
    {
        ParallelConfig { failure_strategy: strategy, ..self }
    }
}

impl Default for ParallelConfig {
    fn default() -> (r: Self)
        ensures
            r.is_default(),
    {
        ParallelConfig::new()
    }
}

/// Retry settings of a step.
#[derive(Debug, Clone)]
pub struct RetryConfig {
    /// Maximum number of retry attempts.
    pub max_attempts: u32,
    /// Delay between retries, in seconds.
    pub delay_seconds: u64,
    /// Whether the delay doubles with each attempt.
    pub exponential_backoff: bool,
    /// Upper bound of the delay with exponential backoff, in seconds.
    pub max_delay_seconds: u64,
    /// Conditions under which to retry.
    pub retry_conditions: Vec<RetryCondition>,
}

impl RetryConfig {
    /// No retries, one-second delay, no backoff, one-minute cap, retry on any
    /// failure.
    pub open spec fn is_default(self) -> bool {
        &&& self.max_attempts == 0
        &&& self.delay_seconds == DEFAULT_RETRY_DELAY_SECONDS
        &&& !self.exponential_backoff
        &&& self.max_delay_seconds == DEFAULT_MAX_RETRY_DELAY_SECONDS
        &&& self.retry_conditions@.len() == 1
        &&& self.retry_conditions@[0] is AnyFailure
    }

    /// The default retry configuration.
    pub fn new() -> (r: Self)
        ensures
            r.is_default(),
    {
        RetryConfig {
            max_attempts: 0,
            delay_seconds: DEFAULT_RETRY_DELAY_SECONDS,
            exponential_backoff: false,
            max_delay_seconds: DEFAULT_MAX_RETRY_DELAY_SECONDS,
            retry_conditions: vec![RetryCondition::AnyFailure],
        }
    }

    /// Sets the maximum number of retry attempts.
    pub fn with_max_attempts(self, attempts: u32) -> (r: Self)
        ensures
            r == (RetryConfig { max_attempts: attempts, ..self }),
    {
        RetryConfig { max_attempts: attempts, ..self }
    }

    /// Sets the delay between retries.
    pub fn with_delay(self, seconds: u64) -> (r: Self)
        ensures
            r == (RetryConfig { delay_seconds: seconds, ..self }),
    {
        RetryConfig { delay_seconds: seconds, ..self }
    }

    /// Enables or disables exponential backoff.
    pub fn with_exponential_backoff(self, enabled: bool) -> (r: Self)
        ensures
            r == (RetryConfig { exponential_backoff: enabled, ..self }),
    {
        RetryConfig { exponential_backoff: enabled, ..self }
    }

    /// Sets the cap of the exponential backoff delay.
    pub fn with_max_delay(self, seconds: u64) -> (r: Self)
        ensures
            r == (RetryConfig { max_delay_seconds: seconds, ..self }),
    {
        RetryConfig { max_delay_seconds: seconds, ..self }
    }

    /// Adds a retry condition after the existing ones.
    pub fn with_condition(self, condition: RetryCondition) -> (r: Self)
        ensures
            r.retry_conditions@ == self.retry_conditions@.push(condition),
            r.max_attempts == self.max_attempts,
            r.delay_seconds == self.delay_seconds,
            r.exponential_backoff == self.exponential_backoff,
            r.max_delay_seconds == self.max_delay_seconds,
    {
        let mut s = self;
        s.retry_conditions.push(condition);
        s
    }
}

impl Default for RetryConfig {
    fn default() -> (r: Self)
        ensures
            r.is_default(),
    {
        RetryConfig::new()
    }
}

/// Execution options of a pipeline.
#[derive(Debug, Clone)]
pub struct PipelineConfig {
    /// Maximum execution time, in seconds.
    pub timeout_seconds: u64,
    /// Whether to continue after a failed step.
    pub continue_on_error: bool,
    /// Working directory of the pipeline.
    pub working_directory: Option<String>,
    /// Parallel execution settings.
    pub parallel: ParallelConfig,
    /// Environment variables given to every step.
    pub global_env: StrMap<String>,
    /// Maximum memory usage, in bytes.
    pub max_memory_bytes: Option<u64>,
    /// Verbose logging.
    pub verbose: bool,
}

impl PipelineConfig {
    /// One-hour timeout, stop on error, no working directory, default
    /// parallel settings, no global environment, no memory cap, quiet.
    pub open spec fn is_default(self) -> bool {
        &&& self.timeout_seconds == DEFAULT_TIMEOUT_SECONDS
        &&& !self.continue_on_error
        &&& self.working_directory is None
        &&& self.parallel.is_default()
        &&& self.global_env@ == Map::<Seq<char>, String>::empty()
        &&& self.max_memory_bytes is None
        &&& !self.verbose
    }

    /// The default pipeline configuration.
    pub fn new() -> (r: Self)
        ensures
            r.is_default(),
    {
        PipelineConfig {
            timeout_seconds: DEFAULT_TIMEOUT_SECONDS,
            continue_on_error: false,
            working_directory: None,
            parallel: ParallelConfig::new(),
            global_env: StrMap::new(),
            max_memory_bytes: None,
            verbose: false,
        }
    }

    /// Sets the pipeline timeout.
    pub fn with_timeout(self, seconds: u64) -> (r: Self)
        ensures
            r == (PipelineConfig { timeout_seconds: seconds, ..self }),
    {
        PipelineConfig { timeout_seconds: seconds, ..self }
    }

    /// Sets whether to continue after errors.
    pub fn with_continue_on_error(self, continue_on_error: bool) -> (r: Self)
        ensures
            r == (PipelineConfig { continue_on_error, ..self }),
    {
        PipelineConfig { continue_on_error, ..self }
    }

    /// Sets the working directory.
    pub fn with_working_directory(self, dir: &str) -> (r: Self)
        ensures
            r.working_directory matches Some(d) && d@ == dir@,
            r == (PipelineConfig { working_directory: r.working_directory, ..self }),
    {
        PipelineConfig { working_directory: Some(dir.to_owned()), ..self }
    }

    /// Sets the parallel execution settings.
    pub fn with_parallel(self, config: ParallelConfig) -> (r: Self)
        ensures
            r == (PipelineConfig { parallel: config, ..self }),
    {
        PipelineConfig { parallel: config, ..self }
    }

    /// Adds a global environment variable.
    pub fn with_global_env(self, key: &str, value: &str) -> (r: Self)
        ensures
            r.global_env@ == self.global_env@.insert(key@, r.global_env@[key@]),
            r.global_env@[key@]@ == value@,
            r.timeout_seconds == self.timeout_seconds,
            r.continue_on_error == self.continue_on_error,
            r.working_directory == self.working_directory,
            r.parallel == self.parallel,
            r.max_memory_bytes == self.max_memory_bytes,
            r.verbose == self.verbose,
    {
        let mut s = self;
        s.global_env.insert(key.to_owned(), value.to_owned());
        s
    }

    /// Sets verbose logging.
    pub fn with_verbose(self, verbose: bool) -> (r: Self)
        ensures
            r == (PipelineConfig { verbose, ..self }),
    {
        PipelineConfig { verbose, ..self }
    }
}

impl Default for PipelineConfig {
    fn default() -> (r: Self)
        ensures
            r.is_default(),
    {
        PipelineConfig::new()
    }
}

} // verus!
