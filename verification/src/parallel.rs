//! Parallel execution: worker and execution settings, worker status, the
//! resource hints of steps, grouping of steps by dependency level and the
//! tallies of a run.
//!
//! Durations are whole milliseconds or seconds; CPU shares are counted in
//! quarter cores.
use vstd::prelude::*;
use crate::step::{contains_name, Pipeline, PipelineStep};
use crate::error::concat3;
use crate::parser::{decimal, decimal_string};
use crate::strmap::StrMap;
use crate::text::{parse_u64, parse_u64_spec, str_eq, str_lowercase, to_lowercase_string};

verus! {

/// Fewest workers a pool gets.
pub const MIN_WORKER_COUNT: usize = 1;

/// Most workers a pool gets.
pub const MAX_WORKER_COUNT: usize = 32;

/// Default time a worker may spend on a task, in milliseconds (five minutes).
pub const DEFAULT_WORKER_TIMEOUT_MS: u64 = 300000;

/// Default interval between worker health checks, in milliseconds.
pub const DEFAULT_HEALTH_CHECK_INTERVAL_MS: u64 = 10000;

/// Default interval between polls of the task queue, in milliseconds.
pub const DEFAULT_QUEUE_POLL_INTERVAL_MS: u64 = 100;

/// Errors of parallel execution.
#[derive(Debug)]
pub enum ParallelError {
    /// The worker pool failed.
    WorkerPool(String),
    /// A resource limit was exceeded.
    ResourceConstraint(String),
    /// Tasks could not be scheduled.
    Scheduling(String),
    /// Workers could not communicate.
    Communication(String),
    /// A channel failed.
    ChannelError(String),
    /// A task failed.
    ExecutionError(String),
    /// A task ran out of time.
    TimeoutError(String),
    /// The run ran out of time.
    Timeout { seconds: u64 },
    /// The run was cancelled.
    Cancelled,
    /// The pipeline is invalid.
    Pipeline(String),
}

/// The number of logical CPUs, by `num_cpus::get`.  Nothing is stated of
/// it: it depends on the machine.
#[verifier::external_body]
fn logical_cpus() -> (r: usize) {
    num_cpus::get()
}

/// `n` kept within `[lo, hi]`.
pub open spec fn clamp_spec(n: int, lo: int, hi: int) -> int {
    if n < lo {
        lo
    } else if n > hi {
        hi
    } else {
        n
    }
}

/// Worker settings.
#[derive(Debug, Clone)]
pub struct WorkerConfig {
    /// Number of workers.
    pub count: usize,
    /// Time a worker may spend on a task, in milliseconds.
    pub task_timeout_ms: u64,
    /// Interval between health checks, in milliseconds.
    pub health_check_interval_ms: u64,
    /// Interval between polls of the task queue, in milliseconds.
    pub poll_interval_ms: u64,
    /// Whether tasks run isolated.
    pub enable_isolation: bool,
}

impl WorkerConfig {
    /// The default settings on a machine with `cpu_count` CPUs: one worker
    /// per CPU within the allowed range, default timeouts, no isolation.
    pub fn for_cpu_count(cpu_count: usize) -> (r: Self)
        ensures
            r.count == clamp_spec(cpu_count as int, MIN_WORKER_COUNT as int, MAX_WORKER_COUNT as int),
            r.task_timeout_ms == DEFAULT_WORKER_TIMEOUT_MS,
            r.health_check_interval_ms == DEFAULT_HEALTH_CHECK_INTERVAL_MS,
            r.poll_interval_ms == DEFAULT_QUEUE_POLL_INTERVAL_MS,
            !r.enable_isolation,
    {
        let count = if cpu_count < MIN_WORKER_COUNT {
            MIN_WORKER_COUNT
        } else if cpu_count > MAX_WORKER_COUNT {
            MAX_WORKER_COUNT
        } else {
            cpu_count
        };
        WorkerConfig {
            count,
            task_timeout_ms: DEFAULT_WORKER_TIMEOUT_MS,
            health_check_interval_ms: DEFAULT_HEALTH_CHECK_INTERVAL_MS,
            poll_interval_ms: DEFAULT_QUEUE_POLL_INTERVAL_MS,
            enable_isolation: false,
        }
    }
}

impl Default for WorkerConfig {
    fn default() -> (r: Self)
        ensures
            MIN_WORKER_COUNT <= r.count <= MAX_WORKER_COUNT,
            r.task_timeout_ms == DEFAULT_WORKER_TIMEOUT_MS,
            r.health_check_interval_ms == DEFAULT_HEALTH_CHECK_INTERVAL_MS,
            r.poll_interval_ms == DEFAULT_QUEUE_POLL_INTERVAL_MS,
            !r.enable_isolation,
    {
        WorkerConfig::for_cpu_count(logical_cpus())
    }
}

/// Scheduling settings.
#[derive(Debug, Clone)]
pub struct ExecutionConfig {
    /// Most steps running at once.
    pub max_concurrent_steps: usize,
    /// Whether scheduling adapts to load.
    pub adaptive_scheduling: bool,
    /// Whether physical cores are preferred.
    pub prefer_physical_cores: bool,
    /// Whether priorities are honoured.
    pub enable_priority_scheduling: bool,
}

impl ExecutionConfig {
    /// The default settings on a machine with `cpu_count` CPUs: two steps
    /// per CPU, everything enabled.
    pub fn for_cpu_count(cpu_count: usize) -> (r: Self)
        requires
            cpu_count * 2 <= usize::MAX,
        ensures
            r.max_concurrent_steps == cpu_count * 2,
            r.adaptive_scheduling,
            r.prefer_physical_cores,
            r.enable_priority_scheduling,
    {
        ExecutionConfig {
            max_concurrent_steps: cpu_count * 2,
            adaptive_scheduling: true,
            prefer_physical_cores: true,
            enable_priority_scheduling: true,
        }
    }
}

/// Settings of a worker pool.
#[derive(Debug, Clone)]
pub struct WorkerPoolConfig {
    /// Most workers.
    pub max_workers: usize,
    /// Time a task may take, in milliseconds.
    pub task_timeout_ms: u64,
    /// Time shutting down may take, in milliseconds.
    pub shutdown_timeout_ms: u64,
    /// Retries of a task.
    pub max_retries: u32,
}

impl WorkerPoolConfig {
    /// The default settings on a machine with `cpu_count` CPUs: one worker
    /// per CPU but at least two, five-minute tasks, thirty-second shutdown,
    /// three retries.
    pub fn for_cpu_count(cpu_count: usize) -> (r: Self)
        ensures
            r.max_workers == if cpu_count >= 2 {
                cpu_count
            } else {
                2
            },
            r.task_timeout_ms == 300000,
            r.shutdown_timeout_ms == 30000,
            r.max_retries == 3,
    {
        WorkerPoolConfig {
            max_workers: if cpu_count >= 2 {
                cpu_count
            } else {
                2
            },
            task_timeout_ms: 300000,
            shutdown_timeout_ms: 30000,
            max_retries: 3,
        }
    }
}

impl Default for WorkerPoolConfig {
    fn default() -> (r: Self)
        ensures
            r.max_workers >= 2,
            r.task_timeout_ms == 300000,
            r.shutdown_timeout_ms == 30000,
            r.max_retries == 3,
    {
        WorkerPoolConfig::for_cpu_count(logical_cpus())
    }
}

/// State of one worker.
#[derive(Debug, Clone)]
pub enum WorkerStatus {
    /// Waiting for a task.
    Idle,
    /// Running the named step.
    Running(String),
    /// Failed with this error.
    Failed(String),
    /// Stopped.
    Finished,
}

/// State of a worker pool.
#[derive(Debug, Clone, Copy)]
pub struct WorkerPoolStatus {
    /// Workers in the pool.
    pub total_workers: usize,
    /// Idle workers.
    pub idle_workers: usize,
    /// Workers running a step.
    pub running_workers: usize,
    /// Failed workers.
    pub failed_workers: usize,
    /// Tasks waiting in the queue.
    pub queued_tasks: usize,
    /// Tasks completed.
    pub completed_tasks: usize,
}

/// Number of the statuses that satisfy `p`.
pub open spec fn count_statuses(s: Seq<WorkerStatus>, p: spec_fn(WorkerStatus) -> bool) -> nat
    decreases s.len(),
{
    if s.len() == 0 {
        0
    } else {
        count_statuses(s.drop_last(), p) + if p(s.last()) {
            1nat
        } else {
            0nat
        }
    }
}

proof fn lemma_count_statuses_le(s: Seq<WorkerStatus>, p: spec_fn(WorkerStatus) -> bool)
    ensures
        count_statuses(s, p) <= s.len(),
    decreases s.len(),
{
    if s.len() > 0 {
        lemma_count_statuses_le(s.drop_last(), p);
    }
}

impl WorkerPoolStatus {
    /// The status of a pool whose workers are in the states `statuses`:
    /// workers counted by state, no queued task known, `completed_tasks`
    /// completed.
    pub fn tally(statuses: &[WorkerStatus], completed_tasks: usize) -> (r: Self)
        ensures
            r.total_workers == statuses@.len(),
            r.idle_workers == count_statuses(statuses@, |w: WorkerStatus| w is Idle),
            r.running_workers == count_statuses(statuses@, |w: WorkerStatus| w is Running),
            r.failed_workers == count_statuses(statuses@, |w: WorkerStatus| w is Failed),
            r.queued_tasks == 0,
            r.completed_tasks == completed_tasks,
    {
        let ghost idle = |w: WorkerStatus| w is Idle;
        let ghost running = |w: WorkerStatus| w is Running;
        let ghost failed = |w: WorkerStatus| w is Failed;
        let mut idle_workers: usize = 0;
        let mut running_workers: usize = 0;
        let mut failed_workers: usize = 0;
        let mut i: usize = 0;
        while i < statuses.len()
            invariant
                i <= statuses@.len(),
                idle == (|w: WorkerStatus| w is Idle),
                running == (|w: WorkerStatus| w is Running),
                failed == (|w: WorkerStatus| w is Failed),
                idle_workers == count_statuses(statuses@.subrange(0, i as int), idle),
                running_workers == count_statuses(statuses@.subrange(0, i as int), running),
                failed_workers == count_statuses(statuses@.subrange(0, i as int), failed),
            decreases statuses@.len() - i,
        {
            proof {
                let next = statuses@.subrange(0, i + 1);
                assert(next.drop_last() =~= statuses@.subrange(0, i as int));
                lemma_count_statuses_le(statuses@.subrange(0, i as int), idle);
                lemma_count_statuses_le(statuses@.subrange(0, i as int), running);
                lemma_count_statuses_le(statuses@.subrange(0, i as int), failed);
            }
            match &statuses[i] {
                WorkerStatus::Idle => idle_workers = idle_workers + 1,
                WorkerStatus::Running(_) => running_workers = running_workers + 1,
                WorkerStatus::Failed(_) => failed_workers = failed_workers + 1,
                WorkerStatus::Finished => {},
            }
            i = i + 1;
        }
        assert(statuses@.subrange(0, statuses@.len() as int) =~= statuses@);
        WorkerPoolStatus {
            total_workers: statuses.len(),
            idle_workers,
            running_workers,
            failed_workers,
            queued_tasks: 0,
            completed_tasks,
        }
    }
}

/// Environment key marking a CPU-heavy step.
pub const ENV_CPU_INTENSIVE: &'static str = "GAIA_CPU_INTENSIVE";

/// Environment key marking a memory-heavy step.
pub const ENV_MEMORY_INTENSIVE: &'static str = "GAIA_MEMORY_INTENSIVE";

/// Environment key marking a disk-heavy step.
pub const ENV_IO_INTENSIVE: &'static str = "GAIA_IO_INTENSIVE";

/// Environment key marking a network-heavy step.
pub const ENV_NETWORK_INTENSIVE: &'static str = "GAIA_NETWORK_INTENSIVE";

/// Environment key marking a step that needs the machine to itself.
pub const ENV_EXCLUSIVE_ACCESS: &'static str = "GAIA_EXCLUSIVE_ACCESS";

/// Whether an already lower-cased value switches a hint on.
pub open spec fn truthy(lower: Seq<char>) -> bool {
    lower == "true"@ || lower == "1"@ || lower == "yes"@ || lower == "on"@
}

/// Whether the environment sets `key` to a true value (`true`, `1`, `yes`
/// or `on`, in any case).
pub open spec fn env_flag(env: Map<Seq<char>, String>, key: Seq<char>) -> bool {
    env.contains_key(key) && truthy(str_lowercase(env[key]@))
}

/// The priority the environment asks for: `GAIA_PRIORITY` as a number up to
/// 100.
pub open spec fn env_priority(env: Map<Seq<char>, String>) -> Option<u8> {
    if env.contains_key("GAIA_PRIORITY"@) {
        match parse_u64_spec(env["GAIA_PRIORITY"@]@) {
            Some(p) => if p <= 100 {
                Some(p as u8)
            } else {
                None
            },
            None => None,
        }
    } else {
        None
    }
}

/// Resource hints of a step, read from its environment.
#[derive(Debug, Clone)]
pub struct StepResourceHints {
    /// CPU-heavy.
    pub cpu_intensive: bool,
    /// Memory-heavy.
    pub memory_intensive: bool,
    /// Disk-heavy.
    pub io_intensive: bool,
    /// Network-heavy.
    pub network_intensive: bool,
    /// Needs the machine to itself.
    pub exclusive_access: bool,
    /// Priority asked for.
    pub custom_priority: Option<u8>,
}

/// The hints of a step with environment `env`.
pub open spec fn hints_of(env: Map<Seq<char>, String>, h: StepResourceHints) -> bool {
    &&& h.cpu_intensive == env_flag(env, "GAIA_CPU_INTENSIVE"@)
    &&& h.memory_intensive == env_flag(env, "GAIA_MEMORY_INTENSIVE"@)
    &&& h.io_intensive == env_flag(env, "GAIA_IO_INTENSIVE"@)
    &&& h.network_intensive == env_flag(env, "GAIA_NETWORK_INTENSIVE"@)
    &&& h.exclusive_access == env_flag(env, "GAIA_EXCLUSIVE_ACCESS"@)
    &&& h.custom_priority == env_priority(env)
}

/// What a step needs, with CPU counted in quarter cores.
#[derive(Debug, Clone, Copy)]
pub struct ResourceNeeds {
    /// CPU share, in quarter cores.
    pub cpu_quarters: u64,
    /// Memory, in megabytes.
    pub memory_mb: u64,
    /// Disk-heavy.
    pub disk_io_intensive: bool,
    /// Network-heavy.
    pub network_io_intensive: bool,
    /// Needs the machine to itself.
    pub requires_exclusive_access: bool,
    /// Priority, 0 to 100.
    pub priority: u8,
}

/// The needs of a step, from its environment and criticality.
pub open spec fn step_needs(step: PipelineStep) -> ResourceNeeds {
    let env = step.env@;
    ResourceNeeds {
        cpu_quarters: if env_flag(env, "GAIA_CPU_INTENSIVE"@) {
            4u64
        } else {
            1u64
        },
        memory_mb: if env_flag(env, "GAIA_MEMORY_INTENSIVE"@) {
            1024u64
        } else {
            256u64
        },
        disk_io_intensive: env_flag(env, "GAIA_IO_INTENSIVE"@),
        network_io_intensive: env_flag(env, "GAIA_NETWORK_INTENSIVE"@),
        requires_exclusive_access: env_flag(env, "GAIA_EXCLUSIVE_ACCESS"@),
        priority: match env_priority(env) {
            Some(p) => p,
            None => if step.critical {
                90u8
            } else {
                50u8
            },
        },
    }
}

/// The needs of each of the steps.
pub open spec fn needs_of_steps(steps: Seq<PipelineStep>) -> Seq<ResourceNeeds> {
    steps.map_values(|s: PipelineStep| step_needs(s))
}

/// Total CPU of a list of needs, in quarter cores.
pub open spec fn needs_cpu(s: Seq<ResourceNeeds>) -> nat
    decreases s.len(),
{
    if s.len() == 0 {
        0
    } else {
        needs_cpu(s.drop_last()) + s.last().cpu_quarters as nat
    }
}

/// Total memory of a list of needs, in megabytes.
pub open spec fn needs_memory(s: Seq<ResourceNeeds>) -> nat
    decreases s.len(),
{
    if s.len() == 0 {
        0
    } else {
        needs_memory(s.drop_last()) + s.last().memory_mb as nat
    }
}

/// How many of a list of needs are disk- or network-heavy.
pub open spec fn needs_io_count(s: Seq<ResourceNeeds>) -> nat
    decreases s.len(),
{
    if s.len() == 0 {
        0
    } else {
        needs_io_count(s.drop_last()) + if s.last().disk_io_intensive || s.last().network_io_intensive {
            1nat
        } else {
            0nat
        }
    }
}

/// Highest priority of a list of needs, 0 when it is empty.
pub open spec fn needs_priority_max(s: Seq<ResourceNeeds>) -> u8
    decreases s.len(),
{
    if s.len() == 0 {
        0
    } else {
        let rest = needs_priority_max(s.drop_last());
        if s.last().priority > rest {
            s.last().priority
        } else {
            rest
        }
    }
}

/// Needs of several tasks run together: CPU and memory added up, each flag
/// set when some task sets it, and the highest priority.
pub open spec fn combined_needs(s: Seq<ResourceNeeds>) -> ResourceNeeds {
    ResourceNeeds {
        cpu_quarters: needs_cpu(s) as u64,
        memory_mb: needs_memory(s) as u64,
        disk_io_intensive: exists|i: int| 0 <= i < s.len() && (#[trigger] s[i]).disk_io_intensive,
        network_io_intensive: exists|i: int| 0 <= i < s.len() && (#[trigger] s[i]).network_io_intensive,
        requires_exclusive_access: exists|i: int|
            0 <= i < s.len() && (#[trigger] s[i]).requires_exclusive_access,
        priority: needs_priority_max(s),
    }
}

/// The steps can run side by side: none needs the machine to itself, and
/// together they stay within the CPU, memory and I/O limits.
pub open spec fn fit_together(steps: Seq<PipelineStep>, max_cpu_quarters: u64, max_memory_mb: u64, max_io_tasks: usize) -> bool {
    let n = needs_of_steps(steps);
    &&& !(exists|i: int| 0 <= i < n.len() && (#[trigger] n[i]).requires_exclusive_access)
    &&& needs_cpu(n) <= max_cpu_quarters
    &&& needs_memory(n) <= max_memory_mb
    &&& needs_io_count(n) <= max_io_tasks
}

impl Default for ResourceNeeds {
    /// No needs at all.
    fn default() -> (r: Self)
        ensures
            r.cpu_quarters == 0 && r.memory_mb == 0 && !r.disk_io_intensive && !r.network_io_intensive
                && !r.requires_exclusive_access && r.priority == 0,
    {
        ResourceNeeds {
            cpu_quarters: 0,
            memory_mb: 0,
            disk_io_intensive: false,
            network_io_intensive: false,
            requires_exclusive_access: false,
            priority: 0,
        }
    }
}

impl ResourceNeeds {
    /// A CPU-heavy task: a core, 512 MB, priority 70.
    pub fn cpu_intensive() -> (r: Self)
        ensures
            r == (ResourceNeeds {
                cpu_quarters: 4,
                memory_mb: 512,
                disk_io_intensive: false,
                network_io_intensive: false,
                requires_exclusive_access: false,
                priority: 70,
            }),
    {
        ResourceNeeds {
            cpu_quarters: 4,
            memory_mb: 512,
            disk_io_intensive: false,
            network_io_intensive: false,
            requires_exclusive_access: false,
            priority: 70,
        }
    }

    /// A memory-heavy task: half a core, 2 GB, priority 60.
    pub fn memory_intensive() -> (r: Self)
        ensures
            r == (ResourceNeeds {
                cpu_quarters: 2,
                memory_mb: 2048,
                disk_io_intensive: false,
                network_io_intensive: false,
                requires_exclusive_access: false,
                priority: 60,
            }),
    {
        ResourceNeeds {
            cpu_quarters: 2,
            memory_mb: 2048,
            disk_io_intensive: false,
            network_io_intensive: false,
            requires_exclusive_access: false,
            priority: 60,
        }
    }

    /// A disk-heavy task: a quarter core, 256 MB, priority 50.
    pub fn io_intensive() -> (r: Self)
        ensures
            r == (ResourceNeeds {
                cpu_quarters: 1,
                memory_mb: 256,
                disk_io_intensive: true,
                network_io_intensive: false,
                requires_exclusive_access: false,
                priority: 50,
            }),
    {
        ResourceNeeds {
            cpu_quarters: 1,
            memory_mb: 256,
            disk_io_intensive: true,
            network_io_intensive: false,
            requires_exclusive_access: false,
            priority: 50,
        }
    }

    /// A task that needs the machine to itself: every logical CPU (counted
    /// in quarters, at most `u64::MAX`), 4 GB, priority 100.
    pub fn exclusive() -> (r: Self)
        ensures
            r.memory_mb == 4096 && r.requires_exclusive_access && r.priority == 100
                && !r.disk_io_intensive && !r.network_io_intensive,
    {
        let cpus = logical_cpus() as u64;
        ResourceNeeds {
            cpu_quarters: if cpus <= u64::MAX / 4 {
                cpus * 4
            } else {
                u64::MAX
            },
            memory_mb: 4096,
            disk_io_intensive: false,
            network_io_intensive: false,
            requires_exclusive_access: true,
            priority: 100,
        }
    }

    /// The needs of several tasks run together.
    pub fn combine(requirements: &[ResourceNeeds]) -> (r: Self)
        requires
            needs_cpu(requirements@) <= u64::MAX,
            needs_memory(requirements@) <= u64::MAX,
        ensures
            r == combined_needs(requirements@),
    {
        let ghost s = requirements@;
        let mut cpu: u64 = 0;
        let mut mem: u64 = 0;
        let mut disk = false;
        let mut net = false;
        let mut excl = false;
        let mut prio: u8 = 0;
        let mut i: usize = 0;
        while i < requirements.len()
            invariant
                s == requirements@,
                needs_cpu(s) <= u64::MAX,
                needs_memory(s) <= u64::MAX,
                i <= s.len(),
                cpu == needs_cpu(s.subrange(0, i as int)),
                mem == needs_memory(s.subrange(0, i as int)),
                prio == needs_priority_max(s.subrange(0, i as int)),
                disk == exists|j: int| 0 <= j < i && (#[trigger] s[j]).disk_io_intensive,
                net == exists|j: int| 0 <= j < i && (#[trigger] s[j]).network_io_intensive,
                excl == exists|j: int| 0 <= j < i && (#[trigger] s[j]).requires_exclusive_access,
            decreases s.len() - i,
        {
            proof {
                assert(s.subrange(0, i + 1).drop_last() =~= s.subrange(0, i as int));
                assert(s.subrange(0, i + 1).last() == s[i as int]);
                lemma_needs_prefix(s, i + 1);
            }
            let q = &requirements[i];
            cpu = cpu + q.cpu_quarters;
            mem = mem + q.memory_mb;
            disk = disk || q.disk_io_intensive;
            net = net || q.network_io_intensive;
            excl = excl || q.requires_exclusive_access;
            if q.priority > prio {
                prio = q.priority;
            }
            i = i + 1;
        }
        assert(s.subrange(0, s.len() as int) =~= s);
        ResourceNeeds {
            cpu_quarters: cpu,
            memory_mb: mem,
            disk_io_intensive: disk,
            network_io_intensive: net,
            requires_exclusive_access: excl,
            priority: prio,
        }
    }
}

pub(crate) proof fn lemma_needs_prefix(s: Seq<ResourceNeeds>, k: int)
    requires
        0 <= k <= s.len(),
    ensures
        needs_cpu(s.subrange(0, k)) <= needs_cpu(s),
        needs_memory(s.subrange(0, k)) <= needs_memory(s),
    decreases s.len() - k,
{
    if k < s.len() {
        lemma_needs_prefix(s, k + 1);
        assert(s.subrange(0, k + 1).drop_last() =~= s.subrange(0, k));
    } else {
        assert(s.subrange(0, k) =~= s);
    }
}

/// The needs of each step by name; where names repeat, the later step's.
pub open spec fn needs_by_name(steps: Seq<PipelineStep>) -> Map<Seq<char>, ResourceNeeds>
    decreases steps.len(),
{
    if steps.len() == 0 {
        Map::empty()
    } else {
        needs_by_name(steps.drop_last()).insert(steps.last().name@, step_needs(steps.last()))
    }
}

/// Derives resource needs from the steps' environment.
pub struct ResourceAnalyzer;

impl ResourceAnalyzer {
    /// Whether the environment sets `key` to `true`, `1`, `yes` or `on`, in
    /// any case.
    pub fn env_var_is_true(env: &StrMap<String>, key: &str) -> (r: bool)
        ensures
            r == env_flag(env@, key@),
    {
        match env.get(key) {
            Some(v) => {
                let lower = to_lowercase_string(v.as_str());
                let l = lower.as_str();
                str_eq(l, "true") || str_eq(l, "1") || str_eq(l, "yes") || str_eq(l, "on")
            },
            None => false,
        }
    }

    /// The priority set by `GAIA_PRIORITY`, when it is a number up to 100.
    pub fn parse_priority(env: &StrMap<String>) -> (r: Option<u8>)
        ensures
            r == env_priority(env@),
    {
        match env.get("GAIA_PRIORITY") {
            Some(v) => match parse_u64(v.as_str()) {
                Some(p) => if p <= 100 {
                    Some(p as u8)
                } else {
                    None
                },
                None => None,
            },
            None => None,
        }
    }

    /// The resource hints of a step.
    pub fn extract_hints(step: &PipelineStep) -> (r: StepResourceHints)
        ensures
            hints_of(step.env@, r),
    {
        StepResourceHints {
            cpu_intensive: Self::env_var_is_true(&step.env, ENV_CPU_INTENSIVE),
            memory_intensive: Self::env_var_is_true(&step.env, ENV_MEMORY_INTENSIVE),
            io_intensive: Self::env_var_is_true(&step.env, ENV_IO_INTENSIVE),
            network_intensive: Self::env_var_is_true(&step.env, ENV_NETWORK_INTENSIVE),
            exclusive_access: Self::env_var_is_true(&step.env, ENV_EXCLUSIVE_ACCESS),
            custom_priority: Self::parse_priority(&step.env),
        }
    }

    /// The needs of a step: a full core when CPU-heavy and a quarter
    /// otherwise, a gigabyte when memory-heavy and 256 MB otherwise, its I/O
    /// and exclusivity hints, and its asked priority or 90 for critical steps
    /// and 50 for others.
    pub fn analyze_step(step: &PipelineStep) -> (r: ResourceNeeds)
        ensures
            r == step_needs(*step),
    {
        let hints = Self::extract_hints(step);
        let priority = match hints.custom_priority {
            Some(p) => p,
            None => if step.critical {
                90
            } else {
                50
            },
        };
        ResourceNeeds {
            cpu_quarters: if hints.cpu_intensive {
                4
            } else {
                1
            },
            memory_mb: if hints.memory_intensive {
                1024
            } else {
                256
            },
            disk_io_intensive: hints.io_intensive,
            network_io_intensive: hints.network_intensive,
            requires_exclusive_access: hints.exclusive_access,
            priority,
        }
    }

    /// The needs of every step of a pipeline, by step name.
    pub fn analyze_pipeline(pipeline: &Pipeline) -> (r: StrMap<ResourceNeeds>)
        ensures
            r@ == needs_by_name(pipeline.steps@),
    {
        let steps = &pipeline.steps;
        let mut out: StrMap<ResourceNeeds> = StrMap::new();
        let mut i: usize = 0;
        while i < steps.len()
            invariant
                i <= steps@.len(),
                out@ == needs_by_name(steps@.subrange(0, i as int)),
            decreases steps@.len() - i,
        {
            proof {
                assert(steps@.subrange(0, i + 1).drop_last() =~= steps@.subrange(0, i as int));
            }
            let needs = Self::analyze_step(&steps[i]);
            out.insert(steps[i].name.clone(), needs);
            i = i + 1;
        }
        assert(steps@.subrange(0, steps@.len() as int) =~= steps@);
        out
    }

    /// Whether the steps can run side by side within the limits: none needs
    /// the machine to itself, their CPU (in quarter cores) and memory add up
    /// to at most the limits, and at most `max_io_tasks` are I/O-heavy.
    pub fn can_run_parallel(
        steps: &[&PipelineStep],
        max_cpu_quarters: u64,
        max_memory_mb: u64,
        max_io_tasks: usize,
    ) -> (r: bool)
        ensures
            r == fit_together(deref_steps(steps@), max_cpu_quarters, max_memory_mb, max_io_tasks),
    {
        let ghost st = deref_steps(steps@);
        let ghost n = needs_of_steps(st);
        let mut i: usize = 0;
        while i < steps.len()
            invariant
                st == deref_steps(steps@),
                n == needs_of_steps(st),
                i <= steps@.len(),
                forall|j: int| 0 <= j < i ==> !(#[trigger] n[j]).requires_exclusive_access,
            decreases steps@.len() - i,
        {
            let h = Self::extract_hints(steps[i]);
            if h.exclusive_access {
                assert(n[i as int].requires_exclusive_access);
                return false;
            }
            i = i + 1;
        }
        let mut cpu: u128 = 0;
        let mut mem: u128 = 0;
        let mut io: usize = 0;
        let mut i: usize = 0;
        while i < steps.len()
            invariant
                st == deref_steps(steps@),
                n == needs_of_steps(st),
                i <= steps@.len(),
                cpu == needs_cpu(n.subrange(0, i as int)),
                mem == needs_memory(n.subrange(0, i as int)),
                io == needs_io_count(n.subrange(0, i as int)),
                cpu <= 4 * i,
                mem <= 1024 * i,
                io <= i,
            decreases steps@.len() - i,
        {
            proof {
                assert(n.subrange(0, i + 1).drop_last() =~= n.subrange(0, i as int));
                assert(n.subrange(0, i + 1).last() == n[i as int]);
            }
            let q = Self::analyze_step(steps[i]);
            cpu = cpu + q.cpu_quarters as u128;
            mem = mem + q.memory_mb as u128;
            if q.disk_io_intensive || q.network_io_intensive {
                io = io + 1;
            }
            i = i + 1;
        }
        assert(n.subrange(0, n.len() as int) =~= n);
        if cpu > max_cpu_quarters as u128 {
            return false;
        }
        if mem > max_memory_mb as u128 {
            return false;
        }
        io <= max_io_tasks
    }
}

/// The texts of a list of names.
pub open spec fn name_texts(names: Seq<String>) -> Seq<Seq<char>> {
    names.map_values(|n: String| n@)
}

/// All dependencies of `s` are among `done`.
pub open spec fn deps_among(s: PipelineStep, done: Seq<Seq<char>>) -> bool {
    forall|k: int| 0 <= k < s.depends_on@.len() ==> done.contains((#[trigger] s.depends_on@[k])@)
}

/// The steps referred to, by value.
pub open spec fn deref_steps(steps: Seq<&PipelineStep>) -> Seq<PipelineStep> {
    steps.map_values(|s: &PipelineStep| *s)
}

/// Sum of the timeouts of the steps that have one.
pub open spec fn timeout_sum(steps: Seq<PipelineStep>) -> nat
    decreases steps.len(),
{
    if steps.len() == 0 {
        0
    } else {
        timeout_sum(steps.drop_last()) + match steps.last().timeout_seconds {
            Some(t) => t as nat,
            None => 0nat,
        }
    }
}

/// Largest timeout of the steps that have one (0 when none has).
pub open spec fn timeout_max(steps: Seq<PipelineStep>) -> nat
    decreases steps.len(),
{
    if steps.len() == 0 {
        0
    } else {
        let rest = timeout_max(steps.drop_last());
        match steps.last().timeout_seconds {
            Some(t) => if t > rest {
                t as nat
            } else {
                rest
            },
            None => rest,
        }
    }
}

/// Some step has a timeout.
pub open spec fn some_timeout(steps: Seq<PipelineStep>) -> bool {
    exists|i: int| 0 <= i < steps.len() && (#[trigger] steps[i]).timeout_seconds is Some
}

/// Estimated duration of a group in seconds from its steps' timeouts: the
/// longest when the steps run in parallel, their sum otherwise; `None` when
/// no step has a timeout.
pub fn estimate_group_duration(steps: &[&PipelineStep], can_run_parallel: bool) -> (r: Option<u64>)
    requires
        timeout_sum(deref_steps(steps@)) <= u64::MAX,
    ensures
        ({
            let s = deref_steps(steps@);
            r == if !some_timeout(s) {
                None::<u64>
            } else if can_run_parallel {
                Some(timeout_max(s) as u64)
            } else {
                Some(timeout_sum(s) as u64)
            }
        }),
{
    let ghost s = deref_steps(steps@);
    let mut found = false;
    let mut sum: u64 = 0;
    let mut max: u64 = 0;
    let mut i: usize = 0;
    while i < steps.len()
        invariant
            s == deref_steps(steps@),
            timeout_sum(s) <= u64::MAX,
            i <= steps@.len(),
            sum == timeout_sum(s.subrange(0, i as int)),
            max == timeout_max(s.subrange(0, i as int)),
            found == exists|j: int| 0 <= j < i && (#[trigger] s[j]).timeout_seconds is Some,
        decreases steps@.len() - i,
    {
        proof {
            assert(s.subrange(0, i + 1).drop_last() =~= s.subrange(0, i as int));
            assert(s.subrange(0, i + 1).last() == s[i as int]);
            lemma_timeout_sum_prefix(s, i + 1);
        }
        match steps[i].timeout_seconds {
            Some(t) => {
                sum = sum + t;
                if t > max {
                    max = t;
                }
                found = true;
            },
            None => {},
        }
        i = i + 1;
    }
    assert(s.subrange(0, steps@.len() as int) =~= s);
    if !found {
        None
    } else if can_run_parallel {
        Some(max)
    } else {
        Some(sum)
    }
}

pub(crate) proof fn lemma_timeout_sum_prefix(s: Seq<PipelineStep>, k: int)
    requires
        0 <= k <= s.len(),
    ensures
        timeout_sum(s.subrange(0, k)) <= timeout_sum(s),
    decreases s.len() - k,
{
    if k < s.len() {
        lemma_timeout_sum_prefix(s, k + 1);
        assert(s.subrange(0, k + 1).drop_last() =~= s.subrange(0, k));
    } else {
        assert(s.subrange(0, k) =~= s);
    }
}

/// Sum of the known durations.
pub open spec fn known_sum(d: Seq<Option<u64>>) -> nat
    decreases d.len(),
{
    if d.len() == 0 {
        0
    } else {
        known_sum(d.drop_last()) + match d.last() {
            Some(x) => x as nat,
            None => 0nat,
        }
    }
}

proof fn lemma_known_sum_prefix(d: Seq<Option<u64>>, k: int)
    requires
        0 <= k <= d.len(),
    ensures
        known_sum(d.subrange(0, k)) <= known_sum(d),
    decreases d.len() - k,
{
    if k < d.len() {
        lemma_known_sum_prefix(d, k + 1);
        assert(d.subrange(0, k + 1).drop_last() =~= d.subrange(0, k));
    } else {
        assert(d.subrange(0, k) =~= d);
    }
}

/// Total estimated duration of a plan from its groups' estimates: the sum of
/// the known ones, `None` when none is known.
pub fn calculate_total_duration(group_durations: &[Option<u64>]) -> (r: Option<u64>)
    requires
        known_sum(group_durations@) <= u64::MAX,
    ensures
        r == if exists|i: int| 0 <= i < group_durations@.len() && (#[trigger] group_durations@[i]) is Some {
            Some(known_sum(group_durations@) as u64)
        } else {
            None::<u64>
        },
{
    let ghost d = group_durations@;
    let mut found = false;
    let mut sum: u64 = 0;
    let mut i: usize = 0;
    while i < group_durations.len()
        invariant
            d == group_durations@,
            known_sum(d) <= u64::MAX,
            i <= d.len(),
            sum == known_sum(d.subrange(0, i as int)),
            found == exists|j: int| 0 <= j < i && (#[trigger] d[j]) is Some,
        decreases d.len() - i,
    {
        proof {
            assert(d.subrange(0, i + 1).drop_last() =~= d.subrange(0, i as int));
            assert(d.subrange(0, i + 1).last() == d[i as int]);
            lemma_known_sum_prefix(d, i + 1);
        }
        match group_durations[i] {
            Some(x) => {
                sum = sum + x;
                found = true;
            },
            None => {},
        }
        i = i + 1;
    }
    assert(d.subrange(0, d.len() as int) =~= d);
    if found {
        Some(sum)
    } else {
        None
    }
}

/// Tally of a parallel run.
#[derive(Debug, Clone, Copy)]
pub struct GroupStats {
    /// Steps that succeeded.
    pub steps_executed: usize,
    /// Steps that failed.
    pub steps_failed: usize,
    /// Steps that were skipped.
    pub steps_skipped: usize,
    /// Whether a critical step failed.
    pub has_critical_failure: bool,
}

impl GroupStats {
    /// An empty tally.
    pub fn new() -> (r: Self)
        ensures
            r.steps_executed == 0 && r.steps_failed == 0 && r.steps_skipped == 0 && !r.has_critical_failure,
    {
        GroupStats { steps_executed: 0, steps_failed: 0, steps_skipped: 0, has_critical_failure: false }
    }

    /// Adds another tally to this one.
    pub fn merge(&mut self, other: &GroupStats)
        requires
            old(self).steps_executed + other.steps_executed <= usize::MAX,
            old(self).steps_failed + other.steps_failed <= usize::MAX,
            old(self).steps_skipped + other.steps_skipped <= usize::MAX,
        ensures
            final(self).steps_executed == old(self).steps_executed + other.steps_executed,
            final(self).steps_failed == old(self).steps_failed + other.steps_failed,
            final(self).steps_skipped == old(self).steps_skipped + other.steps_skipped,
            final(self).has_critical_failure == (old(self).has_critical_failure || other.has_critical_failure),
    {
        self.steps_executed = self.steps_executed + other.steps_executed;
        self.steps_failed = self.steps_failed + other.steps_failed;
        self.steps_skipped = self.steps_skipped + other.steps_skipped;
        self.has_critical_failure = self.has_critical_failure || other.has_critical_failure;
    }

    /// Counts one finished task: a success, or a failure that is critical
    /// when `critical` holds.
    pub fn record(&mut self, succeeded: bool, critical: bool)
        requires
            succeeded ==> old(self).steps_executed < usize::MAX,
            !succeeded ==> old(self).steps_failed < usize::MAX,
        ensures
            final(self).steps_executed == old(self).steps_executed + if succeeded { 1int } else { 0int },
            final(self).steps_failed == old(self).steps_failed + if succeeded { 0int } else { 1int },
            final(self).steps_skipped == old(self).steps_skipped,
            final(self).has_critical_failure == (old(self).has_critical_failure || (!succeeded && critical)),
    {
        if succeeded {
            self.steps_executed = self.steps_executed + 1;
        } else {
            self.steps_failed = self.steps_failed + 1;
            if critical {
                self.has_critical_failure = true;
            }
        }
    }
}


/// Checks a worker count: at least one and at most `MAX_WORKER_COUNT`.
pub fn validate_worker_count(count: usize) -> (r: Result<(), String>)
    ensures
        r is Ok <==> 1 <= count <= MAX_WORKER_COUNT,
        count == 0 ==> (r matches Err(m) && m@ == "Worker count must be greater than 0"@),
        count > MAX_WORKER_COUNT ==> (r matches Err(m) && m@ == "Worker count "@ + decimal(count as nat)
            + " exceeds maximum 32"@),
{
    if count == 0 {
        return Err("Worker count must be greater than 0".to_owned());
    }
    if count > MAX_WORKER_COUNT {
        let n = decimal_string(count as u64);
        return Err(concat3("Worker count ", n.as_str(), " exceeds maximum 32"));
    }
    Ok(())
}

/// Checks the number of steps allowed at once: at least one.
pub fn validate_concurrency(max_concurrent_steps: usize) -> (r: Result<(), String>)
    ensures
        r is Ok <==> max_concurrent_steps > 0,
        r matches Err(m) ==> m@ == "Max concurrent steps must be greater than 0"@,
{
    if max_concurrent_steps == 0 {
        return Err("Max concurrent steps must be greater than 0".to_owned());
    }
    Ok(())
}

} // verus!
