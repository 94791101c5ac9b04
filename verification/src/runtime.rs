//! Statistics and settings of the Lua runtime, and the Lua snippets it runs
//! for steps.
use vstd::prelude::*;
use crate::error::{concat2, lua_error_text, PipelineError};
use crate::executor::{elapsed_ms, now, stats_zero, ExecutionStats, PipelineExecutor};
use crate::lua_assert::{lua_create_function, lua_create_table, lua_set_function};
use crate::step::{Pipeline, PipelineStep};
use crate::strmap::StrMap;
use crate::validator::{validation_issue, PipelineValidator};
use crate::lua_table::{pipeline_fields_read, LuaTable, Read, ReadLog};
use crate::definition::{pipeline_built, PipelineFields};
use crate::graph::{dependencies_acyclic, is_topological_order};
use crate::critical::lemma_order_len;

verus! {

/// Counters of a Lua runtime.
#[derive(Debug, Clone, Copy)]
pub struct RuntimeStats {
    /// Scripts loaded.
    pub scripts_loaded: u64,
    /// Steps run.
    pub steps_executed: u64,
    /// Total time spent running pipelines, in milliseconds.
    pub total_execution_time_ms: u64,
    /// Steps whose action failed.
    pub failed_steps: u64,
    /// Steps retried.
    pub retried_steps: u64,
}

impl RuntimeStats {
    /// All counters at zero.
    pub open spec fn zero_spec() -> Self {
        RuntimeStats {
            scripts_loaded: 0,
            steps_executed: 0,
            total_execution_time_ms: 0,
            failed_steps: 0,
            retried_steps: 0,
        }
    }

    /// All counters at zero.
    pub fn new() -> (r: Self)
        ensures
            r == Self::zero_spec(),
    {
        RuntimeStats {
            scripts_loaded: 0,
            steps_executed: 0,
            total_execution_time_ms: 0,
            failed_steps: 0,
            retried_steps: 0,
        }
    }
}

impl Default for RuntimeStats {
    fn default() -> (r: Self)
        ensures
            r.scripts_loaded == 0 && r.steps_executed == 0 && r.total_execution_time_ms == 0
                && r.failed_steps == 0 && r.retried_steps == 0,
    {
        RuntimeStats::new()
    }
}

/// Default memory limit of the runtime, in bytes (128 MiB).
pub const DEFAULT_MEMORY_LIMIT: usize = 134217728;

/// Default CPU time limit of the runtime, in seconds (five minutes).
pub const DEFAULT_CPU_LIMIT_SECONDS: u64 = 300;

/// Settings of a Lua runtime.
#[derive(Debug, Clone)]
pub struct RuntimeConfig {
    /// Memory limit in bytes.
    pub memory_limit: Option<usize>,
    /// CPU time limit in seconds.
    pub cpu_limit_seconds: Option<u64>,
    /// Whether debugging is on.
    pub debug_enabled: bool,
    /// Extra module search paths.
    pub module_paths: Vec<String>,
}

impl Default for RuntimeConfig {
    fn default() -> (r: Self)
        ensures
            r.memory_limit == Some(DEFAULT_MEMORY_LIMIT),
            r.cpu_limit_seconds == Some(DEFAULT_CPU_LIMIT_SECONDS),
            !r.debug_enabled,
            r.module_paths@.len() == 0,
    {
        RuntimeConfig {
            memory_limit: Some(DEFAULT_MEMORY_LIMIT),
            cpu_limit_seconds: Some(DEFAULT_CPU_LIMIT_SECONDS),
            debug_enabled: false,
            module_paths: Vec::new(),
        }
    }
}

/// The Lua snippet that runs a step's action, logging before and after.
pub open spec fn step_script_text(step_name: Seq<char>, action_ref: Seq<char>) -> Seq<char> {
    "\n                -- Step: "@ + step_name + "\n                local step_name = \""@ + step_name
        + "\"\n                gaia.log.info(\"Executing step: \" .. step_name)\n                \n                -- Execute the action function directly\n                "@
        + action_ref
        + "\n                \n                gaia.log.info(\"Step '\" .. step_name .. \"' completed successfully\")\n                "@
}

/// The Lua snippet that runs the action `action_ref` of step `step_name`.
pub fn step_script(step_name: &str, action_ref: &str) -> (r: String)
    ensures
        r@ == step_script_text(step_name@, action_ref@),
{
    let mut s = "\n                -- Step: ".to_owned();
    s.append(step_name);
    s.append("\n                local step_name = \"");
    s.append(step_name);
    s.append(
        "\"\n                gaia.log.info(\"Executing step: \" .. step_name)\n                \n                -- Execute the action function directly\n                ",
    );
    s.append(action_ref);
    s.append(
        "\n                \n                gaia.log.info(\"Step '\" .. step_name .. \"' completed successfully\")\n                ",
    );
    s
}

/// The Lua snippet that warns that step `step_name` has no action.
pub open spec fn missing_action_text(step_name: Seq<char>) -> Seq<char> {
    "gaia.log.warn(\"Step '"@ + step_name + "' has no action defined\")"@
}

/// The Lua snippet that warns that step `step_name` has no action.
pub fn missing_action_script(step_name: &str) -> (r: String)
    ensures
        r@ == missing_action_text(step_name@),
{
    let mut s = "gaia.log.warn(\"Step '".to_owned();
    s.append(step_name);
    s.append("' has no action defined\")");
    s
}

/// The Lua snippet that changes to the working directory `dir`.
pub open spec fn working_directory_text(dir: Seq<char>) -> Seq<char> {
    "gaia.shell.run({cmd = \"cd "@ + dir + "\"})"@
}

/// The Lua snippet that changes to the working directory `dir`.
pub fn working_directory_script(dir: &str) -> (r: String)
    ensures
        r@ == working_directory_text(dir@),
{
    let mut s = "gaia.shell.run({cmd = \"cd ".to_owned();
    s.append(dir);
    s.append("\"})");
    s
}


/// Errors of the Lua runtime.
#[derive(Debug)]
pub enum RuntimeError {
    /// The Lua interpreter reported an error.
    LuaError(mlua::Error),
    /// The pipeline is invalid or a step failed.
    PipelineError(PipelineError),
    /// The run ran out of time.
    Timeout { seconds: u64 },
}


/// `Lua::load(code).eval::<bool>()`.  Nothing is stated of the outcome: it
/// is the code's.
#[verifier::external_body]
fn lua_eval_bool(lua: &mlua::Lua, code: &str) -> (r: Result<bool, mlua::Error>) {
    lua.load(code).eval::<bool>()
}

/// The global table named `name`, by `globals().get(name)`.
#[verifier::external_body]
fn lua_global_table(lua: &mlua::Lua, name: &str) -> (r: Result<mlua::Table, mlua::Error>) {
    lua.globals().get::<mlua::Table>(name)
}

/// Sets the global `name` to the table `t`, by `globals().set(name, t)`.
#[verifier::external_body]
fn lua_set_global_table(lua: &mlua::Lua, name: &str, t: mlua::Table) -> (r: Result<(), mlua::Error>) {
    lua.globals().set(name, t)
}

/// `runtime.current_step()`: a placeholder text.
fn current_step_text(_lua: &mlua::Lua, _args: ()) -> (r: mlua::Result<String>)
    ensures
        r matches Ok(s) && s@ == "current_step_placeholder"@,
{
    Ok("current_step_placeholder".to_owned())
}

/// `runtime.skip_step([reason])`: the reason, `Step skipped` by default.
fn skip_step_text(_lua: &mlua::Lua, reason: Option<String>) -> (r: mlua::Result<String>)
    ensures
        r matches Ok(s) && s@ == match reason {
            Some(m) => m@,
            None => "Step skipped"@,
        },
{
    match reason {
        Some(m) => Ok(m),
        None => Ok("Step skipped".to_owned()),
    }
}

/// Room in the counters for `n` more steps.
pub open spec fn counters_have_room(stats: RuntimeStats, exec: ExecutionStats, n: int) -> bool {
    &&& stats.steps_executed + n <= u64::MAX
    &&& stats.failed_steps + n <= u64::MAX
    &&& exec.steps_executed + n <= u64::MAX
    &&& exec.failed_steps + n <= u64::MAX
    &&& exec.skipped_steps + n <= u64::MAX
}

/// How a step run by the runtime ends.
#[derive(Debug, Clone, Copy, PartialEq, Eq, Structural)]
pub enum StepOutcome {
    /// Its condition evaluated to false.
    Skipped,
    /// Its action, or the warning that it has none, ran.
    Succeeded,
    /// Its action failed.
    ActionFailed,
    /// Lua failed to evaluate its condition or to log its missing action.
    LuaFailed,
}

/// The outcome of a step from what Lua reported: `condition` is the value
/// of its condition (`Some(true)` for a step without one, `None` when
/// evaluating it failed), `has_action` whether it has an action, and
/// `script_ok` whether the action's script (or the warning that there is
/// none) ran; `script_ok` only matters when the condition holds.
pub open spec fn step_outcome_spec(condition: Option<bool>, has_action: bool, script_ok: bool) -> StepOutcome {
    match condition {
        None => StepOutcome::LuaFailed,
        Some(false) => StepOutcome::Skipped,
        Some(true) => if script_ok {
            StepOutcome::Succeeded
        } else if has_action {
            StepOutcome::ActionFailed
        } else {
            StepOutcome::LuaFailed
        },
    }
}

/// The outcome of a step from what Lua reported (see `step_outcome_spec`).
pub fn step_outcome(condition: Option<bool>, has_action: bool, script_ok: bool) -> (r: StepOutcome)
    ensures
        r == step_outcome_spec(condition, has_action, script_ok),
{
    match condition {
        None => StepOutcome::LuaFailed,
        Some(false) => StepOutcome::Skipped,
        Some(true) => if script_ok {
            StepOutcome::Succeeded
        } else if has_action {
            StepOutcome::ActionFailed
        } else {
            StepOutcome::LuaFailed
        },
    }
}

/// `o` is the outcome of `step` when its condition came out as
/// `condition` (`Some(true)` for a step without one; `None` when evaluating
/// it failed) and its script then ran or failed.
pub open spec fn step_ran(o: StepOutcome, step: PipelineStep, condition: Option<bool>) -> bool {
    &&& step.condition is None ==> condition == Some(true)
    &&& exists|script_ok: bool|
        #![trigger step_outcome_spec(condition, step.action is Some, script_ok)]
        o == step_outcome_spec(condition, step.action is Some, script_ok)
}

/// The script run for a step whose condition holds: the one that runs its
/// action, or the warning that it has none.
pub open spec fn step_script_of(step: PipelineStep) -> Seq<char> {
    match step.action {
        Some(a) => step_script_text(step.name@, a@),
        None => missing_action_text(step.name@),
    }
}

/// The scripts run for a step whose condition came out as `condition`: its
/// script when the condition holds, none otherwise.
pub open spec fn scripts_for(step: PipelineStep, condition: Option<bool>) -> Seq<Seq<char>> {
    if condition == Some(true) {
        seq![step_script_of(step)]
    } else {
        Seq::empty()
    }
}

/// The scripts run for the first `n` steps at positions `order` of `steps`,
/// whose conditions came out as `conds`.
pub open spec fn run_scripts(steps: Seq<PipelineStep>, order: Seq<usize>, conds: Seq<Option<bool>>, n: int) -> Seq<Seq<char>>
    decreases n,
{
    if n <= 0 {
        Seq::empty()
    } else {
        run_scripts(steps, order, conds, n - 1) + scripts_for(steps[order[n - 1] as int], conds[n - 1])
    }
}

/// The script that enters the pipeline's working directory, if it has one.
pub open spec fn working_directory_scripts(pipeline: Pipeline) -> Seq<Seq<char>> {
    match pipeline.config.working_directory {
        Some(d) => seq![working_directory_text(d@)],
        None => Seq::empty(),
    }
}

/// What a step with outcome `o` returns and counts, from the runtime's
/// counters `s0` and the executor's `e0` to `s1` and `e1`: one executed step
/// in the executor for a success or a failed action, one skipped step for a
/// skip, one failed step in both for a failed action, nothing for a Lua
/// failure; a failed action is reported as a step error naming the step.
pub open spec fn outcome_effects(
    o: StepOutcome,
    r: Result<(), RuntimeError>,
    name: Seq<char>,
    s0: RuntimeStats,
    s1: RuntimeStats,
    e0: ExecutionStats,
    e1: ExecutionStats,
) -> bool {
    &&& e1.skipped_steps == e0.skipped_steps + if o is Skipped { 1int } else { 0int }
    &&& e1.steps_executed == e0.steps_executed + if o is Succeeded || o is ActionFailed {
        1int
    } else {
        0int
    }
    &&& e1.failed_steps == e0.failed_steps + if o is ActionFailed { 1int } else { 0int }
    &&& s1.failed_steps == s0.failed_steps + if o is ActionFailed { 1int } else { 0int }
    &&& outcome_result(o, r, name)
}

/// What a step with outcome `o` returns: `Ok` for a skip or a success, a
/// step error naming the step for a failed action, a Lua error otherwise.
pub open spec fn outcome_result(o: StepOutcome, r: Result<(), RuntimeError>, name: Seq<char>) -> bool {
    match o {
        StepOutcome::Skipped => r is Ok,
        StepOutcome::Succeeded => r is Ok,
        StepOutcome::ActionFailed => r matches Err(
            RuntimeError::PipelineError(PipelineError::StepError { step: n, .. }),
        ) && n@ == name,
        StepOutcome::LuaFailed => r matches Err(RuntimeError::LuaError(_)),
    }
}

/// Whether a step with outcome `o` lets the run go on.
pub open spec fn outcome_ok(o: StepOutcome) -> bool {
    o is Skipped || o is Succeeded
}

/// Number of the outcomes in `outs` equal to `o`.
pub open spec fn count_outcome(outs: Seq<StepOutcome>, o: StepOutcome) -> nat
    decreases outs.len(),
{
    if outs.len() == 0 {
        0
    } else {
        count_outcome(outs.drop_last(), o) + if outs.last() == o {
            1nat
        } else {
            0nat
        }
    }
}

/// A pipeline run that went through the steps at positions `order` of
/// `steps` one by one, the `k`-th with outcome `outs[k]` (its condition
/// having come out as `conds[k]`), and stopped at the first outcome that does
/// not let it go on (`Ok` when there was none); the counters move by the
/// outcomes' effects, and the scripts handed to Lua (`sc0` before, `sc1`
/// after) are the working directory's, then each step's in that order.
/// With no outcome at all, an error is the Lua error of entering the
/// working directory.
pub open spec fn pipeline_run(
    r: Result<(), RuntimeError>,
    pipeline: Pipeline,
    order: Seq<usize>,
    outs: Seq<StepOutcome>,
    conds: Seq<Option<bool>>,
    s0: RuntimeStats,
    s1: RuntimeStats,
    e0: ExecutionStats,
    e1: ExecutionStats,
    sc0: Seq<Seq<char>>,
    sc1: Seq<Seq<char>>,
) -> bool {
    let steps = pipeline.steps@;
    &&& outs.len() <= order.len()
    &&& conds.len() == outs.len()
    &&& forall|k: int| 0 <= k < outs.len() ==> step_ran(#[trigger] outs[k], steps[order[k] as int], conds[k])
    &&& sc1 == sc0 + working_directory_scripts(pipeline) + run_scripts(steps, order, conds, outs.len() as int)
    &&& forall|k: int| 0 <= k < outs.len() - 1 ==> outcome_ok(#[trigger] outs[k])
    &&& s1.steps_executed == s0.steps_executed + outs.len()
    &&& s1.failed_steps == s0.failed_steps + count_outcome(outs, StepOutcome::ActionFailed)
    &&& e1.skipped_steps == e0.skipped_steps + count_outcome(outs, StepOutcome::Skipped)
    &&& e1.steps_executed == e0.steps_executed + count_outcome(outs, StepOutcome::Succeeded) + count_outcome(
        outs,
        StepOutcome::ActionFailed,
    )
    &&& e1.failed_steps == e0.failed_steps + count_outcome(outs, StepOutcome::ActionFailed)
    &&& r is Ok ==> outs.len() == order.len() && (outs.len() == 0 || outcome_ok(outs.last()))
    &&& r is Err && outs.len() > 0 ==> outcome_result(outs.last(), r, steps[order[outs.len() - 1] as int].name@)
    &&& r is Err && outs.len() == 0 ==> pipeline.config.working_directory is Some && r matches Err(
        RuntimeError::LuaError(_),
    )
}

/// A Lua interpreter set up to load and run pipelines, with statistics.
pub struct LuaRuntime {
    lua: mlua::Lua,
    current_pipeline: Option<Pipeline>,
    executor: PipelineExecutor,
    stats: RuntimeStats,
    scripts: Ghost<Seq<Seq<char>>>,
    table_reads: ReadLog,
}

impl LuaRuntime {
    /// The reads made on Lua tables by the last load of a pipeline.
    pub closed spec fn table_reads_view(&self) -> Seq<Read> {
        self.table_reads.reads()
    }

    /// The scripts handed to the interpreter so far, in order.
    pub closed spec fn scripts_view(&self) -> Seq<Seq<char>> {
        self.scripts@
    }

    /// `Lua::load(script).exec()` on the runtime's interpreter; the script is
    /// added to the runtime's record of scripts run, and nothing else of the
    /// runtime changes.  Nothing is stated of the outcome: it is the
    /// script's.
    #[verifier::external_body]
    fn exec_script(&mut self, script: &str) -> (r: Result<(), mlua::Error>)
        ensures
            final(self).scripts_view() == old(self).scripts_view().push(script@),
            final(self).stats_view() == old(self).stats_view(),
            final(self).executor_view() == old(self).executor_view(),
            final(self).current_view() == old(self).current_view(),
            final(self).interpreter() == old(self).interpreter(),
            final(self).table_reads_view() == old(self).table_reads_view(),
    {
        self.lua.load(script).exec()
    }

    /// The loaded pipeline, if any.
    pub closed spec fn current_view(&self) -> Option<Pipeline> {
        self.current_pipeline
    }

    /// The runtime's statistics.
    pub closed spec fn stats_view(&self) -> RuntimeStats {
        self.stats
    }

    /// The statistics of its step executor.
    pub closed spec fn executor_view(&self) -> ExecutionStats {
        self.executor.stats_view()
    }

    /// Whether a pipeline is loaded.
    pub open spec fn has_pipeline(&self) -> bool {
        self.current_view() is Some
    }

    /// A runtime around `lua`, which should already hold the `gaia`
    /// library; adds the `runtime` table with `current_step` and
    /// `skip_step`.  Counters start at zero.
    pub fn with_lua(lua: mlua::Lua) -> (r: Result<Self, RuntimeError>)
        ensures
            r matches Ok(rt) ==> {
                &&& rt.stats_view() == RuntimeStats::zero_spec()
                &&& stats_zero(rt.executor_view())
                &&& !rt.has_pipeline()
                &&& rt.interpreter() == lua
                &&& rt.scripts_view() == Seq::<Seq<char>>::empty()
            },
            r is Err ==> r matches Err(RuntimeError::LuaError(_)),
    {
        match Self::register_runtime_functions(&lua) {
            Ok(()) => {},
            Err(e) => {
                return Err(RuntimeError::LuaError(e));
            },
        }
        Ok(LuaRuntime {
            lua,
            current_pipeline: None,
            executor: PipelineExecutor::new(),
            stats: RuntimeStats::new(),
            scripts: Ghost(Seq::empty()),
            table_reads: ReadLog::new(),
        })
    }

    fn register_runtime_functions(lua: &mlua::Lua) -> (r: Result<(), mlua::Error>) {
        let tbl = lua_create_table(lua)?;
        lua_set_function(&tbl, "current_step", lua_create_function(lua, current_step_text)?)?;
        lua_set_function(&tbl, "skip_step", lua_create_function(lua, skip_step_text)?)?;
        lua_set_global_table(lua, "runtime", tbl)
    }

    /// The runtime's interpreter.
    pub closed spec fn interpreter(&self) -> mlua::Lua {
        self.lua
    }

    /// The interpreter.
    pub fn lua(&self) -> (r: &mlua::Lua)
        ensures
            *r == self.interpreter(),
    {
        &self.lua
    }

    /// Runs `script` and reads the pipeline in its global `pipeline` table;
    /// the pipeline must pass validation.  Counts the script as loaded.
    pub fn load_pipeline(&mut self, script: &str) -> (r: Result<Pipeline, RuntimeError>)
        requires
            old(self).stats_view().scripts_loaded < u64::MAX,
        ensures
            final(self).stats_view() == (RuntimeStats {
                scripts_loaded: (old(self).stats_view().scripts_loaded + 1) as u64,
                ..old(self).stats_view()
            }),
            final(self).executor_view() == old(self).executor_view(),
            r matches Ok(p) ==> validation_issue(p) is None && final(self).has_pipeline(),
            r matches Ok(p) ==> exists|f: PipelineFields|
                #![trigger pipeline_built(f, Ok::<Pipeline, PipelineError>(p))]
                pipeline_fields_read(final(self).table_reads_view(), Seq::<Seq<char>>::empty(), f)
                    && pipeline_built(f, Ok::<Pipeline, PipelineError>(p)),
            r is Err ==> final(self).current_view() == old(self).current_view(),
            final(self).scripts_view() == old(self).scripts_view().push(script@),
    {
        self.stats.scripts_loaded = self.stats.scripts_loaded + 1;
        match self.exec_script(script) {
            Ok(()) => {},
            Err(e) => {
                return Err(RuntimeError::LuaError(e));
            },
        }
        let table = match lua_global_table(&self.lua, "pipeline") {
            Ok(t) => t,
            Err(_) => {
                return Err(
                    RuntimeError::PipelineError(
                        PipelineError::ParseError("No 'pipeline' table found in script".to_owned()),
                    ),
                );
            },
        };
        self.table_reads = ReadLog::new();
        let root = LuaTable::new(table);
        let pipeline = match crate::parser::PipelineParser::parse_pipeline_table(&root, &mut self.table_reads) {
            Ok(p) => p,
            Err(e) => {
                return Err(RuntimeError::PipelineError(e));
            },
        };
        match pipeline.validate() {
            Ok(()) => {},
            Err(e) => {
                return Err(RuntimeError::PipelineError(e));
            },
        }
        let copy = pipeline.clone();
        self.current_pipeline = Some(copy);
        Ok(pipeline)
    }

    /// Evaluates a Lua condition to a boolean.
    pub fn evaluate_condition(&self, condition: &str) -> (r: Result<bool, RuntimeError>)
        ensures
            r is Err ==> r matches Err(RuntimeError::LuaError(_)),
    {
        match lua_eval_bool(&self.lua, condition) {
            Ok(b) => Ok(b),
            Err(e) => Err(RuntimeError::LuaError(e)),
        }
    }

    /// The runtime's statistics.
    pub fn stats(&self) -> (r: &RuntimeStats)
        ensures
            *r == self.stats_view(),
    {
        &self.stats
    }

    /// The statistics of the step executor.
    pub fn executor_stats(&self) -> (r: &ExecutionStats)
        ensures
            *r == self.executor_view(),
    {
        self.executor.stats()
    }

    /// Sets every counter back to zero.
    pub fn reset_stats(&mut self)
        ensures
            final(self).stats_view() == RuntimeStats::zero_spec(),
            stats_zero(final(self).executor_view()),
            final(self).has_pipeline() == old(self).has_pipeline(),
            final(self).scripts_view() == old(self).scripts_view(),
    {
        self.stats = RuntimeStats::new();
        self.executor.reset_stats();
    }

    /// Records a finished step in the executor, the elapsed time added up
    /// to at most `u64::MAX` milliseconds.
    fn record_simple(&mut self, success: bool, start: &std::time::Instant)
        requires
            old(self).executor_view().steps_executed < u64::MAX,
            !success ==> old(self).executor_view().failed_steps < u64::MAX,
        ensures
            final(self).executor_view().steps_executed == old(self).executor_view().steps_executed + 1,
            final(self).executor_view().failed_steps == old(self).executor_view().failed_steps + if success {
                0int
            } else {
                1int
            },
            final(self).executor_view().skipped_steps == old(self).executor_view().skipped_steps,
            final(self).stats_view() == old(self).stats_view(),
            final(self).has_pipeline() == old(self).has_pipeline(),
            final(self).current_view() == old(self).current_view(),
            final(self).scripts_view() == old(self).scripts_view(),
    {
        let elapsed = elapsed_ms(start);
        let total = self.executor.stats().total_execution_time_ms;
        let d = if elapsed <= u64::MAX - total {
            elapsed
        } else {
            u64::MAX - total
        };
        self.executor.record_step_execution_simple(success, d);
    }

    /// Runs one step: when its condition evaluates to false the step is
    /// counted as skipped; otherwise its environment is applied through
    /// `set_env` and its action runs, or a warning is logged when it has
    /// none.  A failing action is reported as a step error and counted as
    /// failed.  Every call counts one executed step.  What happens is fixed
    /// by the step's outcome (see `step_outcome`).
    pub fn execute_step<E>(&mut self, step: &PipelineStep, pipeline: &Pipeline, set_env: &E) -> (r: Result<(), RuntimeError>)
        where
            E: Fn(&StrMap<String>),
        requires
            counters_have_room(old(self).stats_view(), old(self).executor_view(), 1),
            forall|m: &StrMap<String>| set_env.requires((m,)),
        ensures
            final(self).stats_view().steps_executed == old(self).stats_view().steps_executed + 1,
            final(self).stats_view().scripts_loaded == old(self).stats_view().scripts_loaded,
            final(self).stats_view().total_execution_time_ms == old(self).stats_view().total_execution_time_ms,
            final(self).stats_view().retried_steps == old(self).stats_view().retried_steps,
            final(self).current_view() == old(self).current_view(),
            exists|o: StepOutcome, condition: Option<bool>|
                #![trigger step_ran(o, *step, condition)]
                {
                    &&& step_ran(o, *step, condition)
                    &&& outcome_effects(
                        o,
                        r,
                        step.name@,
                        old(self).stats_view(),
                        final(self).stats_view(),
                        old(self).executor_view(),
                        final(self).executor_view(),
                    )
                    &&& final(self).scripts_view() == old(self).scripts_view() + scripts_for(*step, condition)
                },
    {
        let start = now();
        self.stats.steps_executed = self.stats.steps_executed + 1;
        let mut lua_failure: Option<mlua::Error> = None;
        let condition: Option<bool> = match &step.condition {
            Some(c) => match lua_eval_bool(&self.lua, c.as_str()) {
                Ok(b) => Some(b),
                Err(e) => {
                    lua_failure = Some(e);
                    None
                },
            },
            None => Some(true),
        };
        let mut script_ok = false;
        if condition == Some(true) {
            set_env(&step.env);
            let script = match &step.action {
                Some(action_ref) => step_script(step.name.as_str(), action_ref.as_str()),
                None => missing_action_script(step.name.as_str()),
            };
            match self.exec_script(script.as_str()) {
                Ok(()) => {
                    script_ok = true;
                },
                Err(e) => {
                    lua_failure = Some(e);
                },
            }
        }
        let outcome = step_outcome(condition, step.action.is_some(), script_ok);
        proof {
            assert(step_ran(outcome, *step, condition));
            if condition == Some(true) {
                assert(self.scripts_view() =~= old(self).scripts_view() + scripts_for(*step, condition));
            } else {
                assert(self.scripts_view() =~= old(self).scripts_view() + scripts_for(*step, condition));
            }
        }
        match outcome {
            StepOutcome::Skipped => {
                self.executor.record_step_skipped();
                Ok(())
            },
            StepOutcome::Succeeded => {
                self.record_simple(true, &start);
                Ok(())
            },
            StepOutcome::ActionFailed => {
                let reason = match &lua_failure {
                    Some(e) => lua_error_text(e),
                    None => {
                        proof {
                            assert(false);
                        }
                        String::new()
                    },
                };
                self.stats.failed_steps = self.stats.failed_steps + 1;
                self.record_simple(false, &start);
                Err(RuntimeError::PipelineError(PipelineError::StepError { step: step.name.clone(), reason }))
            },
            StepOutcome::LuaFailed => match lua_failure {
                Some(e) => Err(RuntimeError::LuaError(e)),
                None => {
                    proof {
                        assert(false);
                    }
                    Ok(())
                },
            },
        }
    }

    /// Runs a pipeline's steps in dependency order, stopping at the first
    /// error: the steps are ordered first (`DependencyCycle` when their
    /// dependencies admit no order), then the pipeline's environment is
    /// applied through `set_env` and its working directory entered.  The
    /// elapsed time of a successful run is added to the total, up to at most
    /// `u64::MAX` milliseconds.
    pub fn execute_pipeline<E>(&mut self, pipeline: &Pipeline, set_env: &E) -> (r: Result<(), RuntimeError>)
        where
            E: Fn(&StrMap<String>),
        requires
            counters_have_room(old(self).stats_view(), old(self).executor_view(), pipeline.steps@.len() as int),
            forall|m: &StrMap<String>| set_env.requires((m,)),
        ensures
            final(self).stats_view().scripts_loaded == old(self).stats_view().scripts_loaded,
            final(self).stats_view().retried_steps == old(self).stats_view().retried_steps,
            final(self).has_pipeline() == old(self).has_pipeline(),
            final(self).current_view() == old(self).current_view(),
            pipeline.steps@.len() == 0 && pipeline.config.working_directory is None ==> r is Ok,
            !dependencies_acyclic(pipeline.steps@) ==> (r matches Err(
                RuntimeError::PipelineError(PipelineError::DependencyCycle),
            )) && final(self).stats_view() == old(self).stats_view() && final(self).executor_view()
                == old(self).executor_view() && final(self).scripts_view() == old(self).scripts_view(),
            dependencies_acyclic(pipeline.steps@) ==> exists|
                order: Seq<usize>,
                outs: Seq<StepOutcome>,
                conds: Seq<Option<bool>>,
            |
                #![trigger is_topological_order(pipeline.steps@, order), outs.len(), conds.len()]
                is_topological_order(pipeline.steps@, order) && pipeline_run(
                    r,
                    *pipeline,
                    order,
                    outs,
                    conds,
                    old(self).stats_view(),
                    final(self).stats_view(),
                    old(self).executor_view(),
                    final(self).executor_view(),
                    old(self).scripts_view(),
                    final(self).scripts_view(),
                ),
    {
        let start = now();
        let ordered = match PipelineValidator::order_steps_by_dependencies(pipeline.steps.as_slice()) {
            Ok(v) => v,
            Err(e) => {
                proof {
                    if pipeline.steps@.len() == 0 {
                        assert(is_topological_order(pipeline.steps@, Seq::<usize>::empty()));
                    }
                }
                return Err(RuntimeError::PipelineError(e));
            },
        };
        let ghost steps = pipeline.steps@;
        let ghost order = choose|order: Seq<usize>|
            is_topological_order(steps, order) && order.len() == ordered@.len() && forall|k: int|
                0 <= k < order.len() ==> *ordered@[k] == steps[order[k] as int];
        proof {
            lemma_order_len(steps, order);
        }
        let ghost s0 = self.stats_view();
        let ghost e0 = self.executor_view();
        let ghost mut outs: Seq<StepOutcome> = Seq::empty();
        let ghost mut conds: Seq<Option<bool>> = Seq::empty();
        let ghost sc0 = self.scripts_view();
        set_env(&pipeline.env);
        match &pipeline.config.working_directory {
            Some(wd) => {
                let script = working_directory_script(wd.as_str());
                match self.exec_script(script.as_str()) {
                    Ok(()) => {},
                    Err(e) => {
                        proof {
                            assert(self.scripts_view() =~= sc0 + working_directory_scripts(*pipeline)
                                + run_scripts(steps, order, conds, 0));
                            assert(pipeline_run(
                                Err(RuntimeError::LuaError(e)),
                                *pipeline,
                                order,
                                outs,
                                conds,
                                s0,
                                self.stats_view(),
                                e0,
                                self.executor_view(),
                                sc0,
                                self.scripts_view(),
                            ));
                        }
                        return Err(RuntimeError::LuaError(e));
                    },
                }
            },
            None => {},
        }
        proof {
            assert(self.scripts_view() =~= sc0 + working_directory_scripts(*pipeline) + run_scripts(
                steps,
                order,
                conds,
                0,
            ));
        }
        let n = ordered.len();
        let mut i: usize = 0;
        while i < n
            invariant
                n == ordered@.len(),
                n == order.len(),
                n <= steps.len(),
                is_topological_order(steps, order),
                steps == pipeline.steps@,
                forall|k: int| 0 <= k < order.len() ==> *ordered@[k] == steps[order[k] as int],
                i <= n,
                outs.len() == i,
                conds.len() == i,
                self.current_view() == old(self).current_view(),
                sc0 == old(self).scripts_view(),
                self.scripts_view() == sc0 + working_directory_scripts(*pipeline) + run_scripts(
                    steps,
                    order,
                    conds,
                    i as int,
                ),
                forall|m: &StrMap<String>| set_env.requires((m,)),
                self.stats_view().scripts_loaded == s0.scripts_loaded,
                self.stats_view().retried_steps == s0.retried_steps,
                self.has_pipeline() == old(self).has_pipeline(),
                s0 == old(self).stats_view(),
                e0 == old(self).executor_view(),
                counters_have_room(s0, e0, steps.len() as int),
                forall|k: int| 0 <= k < outs.len() ==> step_ran(#[trigger] outs[k], steps[order[k] as int], conds[k]),
                forall|k: int| 0 <= k < outs.len() ==> outcome_ok(#[trigger] outs[k]),
                self.stats_view().steps_executed == s0.steps_executed + outs.len(),
                self.stats_view().failed_steps == s0.failed_steps + count_outcome(outs, StepOutcome::ActionFailed),
                self.executor_view().skipped_steps == e0.skipped_steps + count_outcome(outs, StepOutcome::Skipped),
                self.executor_view().steps_executed == e0.steps_executed + count_outcome(
                    outs,
                    StepOutcome::Succeeded,
                ) + count_outcome(outs, StepOutcome::ActionFailed),
                self.executor_view().failed_steps == e0.failed_steps + count_outcome(outs, StepOutcome::ActionFailed),
            decreases n - i,
        {
            proof {
                lemma_count_outcome_le(outs, StepOutcome::Skipped);
                lemma_count_outcome_le(outs, StepOutcome::Succeeded);
                lemma_count_outcome_sum(outs);
            }
            let ghost before = *self;
            let step = ordered[i];
            let res = self.execute_step(step, pipeline, set_env);
            let ghost (o, c) = choose|o: StepOutcome, c: Option<bool>|
                {
                    &&& step_ran(o, *step, c)
                    &&& outcome_effects(
                        o,
                        res,
                        step.name@,
                        before.stats_view(),
                        self.stats_view(),
                        before.executor_view(),
                        self.executor_view(),
                    )
                    &&& self.scripts_view() == before.scripts_view() + scripts_for(*step, c)
                };
            proof {
                let old_outs = outs;
                let old_conds = conds;
                outs = outs.push(o);
                conds = conds.push(c);
                assert(outs.drop_last() =~= old_outs);
                assert(*step == steps[order[i as int] as int]);
                assert forall|k: int| 0 <= k < outs.len() implies step_ran(
                    #[trigger] outs[k],
                    steps[order[k] as int],
                    conds[k],
                ) by {
                    if k < old_outs.len() {
                        assert(outs[k] == old_outs[k]);
                        assert(conds[k] == old_conds[k]);
                    }
                }
                lemma_run_scripts_push(steps, order, old_conds, c, i as int);
                assert(self.scripts_view() =~= sc0 + working_directory_scripts(*pipeline) + run_scripts(
                    steps,
                    order,
                    conds,
                    i + 1,
                ));
            }
            match res {
                Ok(()) => {},
                Err(e) => {
                    proof {
                        assert forall|k: int| 0 <= k < outs.len() - 1 implies outcome_ok(#[trigger] outs[k]) by {
                            assert(outs[k] == outs.drop_last()[k]);
                        }
                        assert(pipeline_run(
                            Err(e),
                            *pipeline,
                            order,
                            outs,
                            conds,
                            s0,
                            self.stats_view(),
                            e0,
                            self.executor_view(),
                            sc0,
                            self.scripts_view(),
                        ));
                    }
                    return Err(e);
                },
            }
            proof {
                assert forall|k: int| 0 <= k < outs.len() implies outcome_ok(#[trigger] outs[k]) by {
                    if k < outs.len() - 1 {
                        assert(outs[k] == outs.drop_last()[k]);
                    }
                }
            }
            i = i + 1;
        }
        let elapsed = elapsed_ms(&start);
        let total = self.stats.total_execution_time_ms;
        self.stats.total_execution_time_ms = if elapsed <= u64::MAX - total {
            total + elapsed
        } else {
            u64::MAX
        };
        proof {
            assert(pipeline_run(
                Ok(()),
                *pipeline,
                order,
                outs,
                conds,
                s0,
                self.stats_view(),
                e0,
                self.executor_view(),
                sc0,
                self.scripts_view(),
            ));
        }
        Ok(())
    }
}

proof fn lemma_run_scripts_push(
    steps: Seq<PipelineStep>,
    order: Seq<usize>,
    conds: Seq<Option<bool>>,
    c: Option<bool>,
    n: int,
)
    requires
        0 <= n,
        conds.len() == n,
    ensures
        run_scripts(steps, order, conds.push(c), n + 1) == run_scripts(steps, order, conds, n) + scripts_for(
            steps[order[n] as int],
            c,
        ),
{
    lemma_run_scripts_prefix(steps, order, conds, c, n);
}

proof fn lemma_run_scripts_prefix(
    steps: Seq<PipelineStep>,
    order: Seq<usize>,
    conds: Seq<Option<bool>>,
    c: Option<bool>,
    n: int,
)
    requires
        0 <= n <= conds.len(),
    ensures
        run_scripts(steps, order, conds.push(c), n) == run_scripts(steps, order, conds, n),
    decreases n,
{
    if n > 0 {
        lemma_run_scripts_prefix(steps, order, conds, c, n - 1);
        assert(conds.push(c)[n - 1] == conds[n - 1]);
    }
}

proof fn lemma_count_outcome_le(outs: Seq<StepOutcome>, o: StepOutcome)
    ensures
        count_outcome(outs, o) <= outs.len(),
    decreases outs.len(),
{
    if outs.len() > 0 {
        lemma_count_outcome_le(outs.drop_last(), o);
    }
}

proof fn lemma_count_outcome_sum(outs: Seq<StepOutcome>)
    ensures
        count_outcome(outs, StepOutcome::Succeeded) + count_outcome(outs, StepOutcome::ActionFailed) <= outs.len(),
    decreases outs.len(),
{
    if outs.len() > 0 {
        lemma_count_outcome_sum(outs.drop_last());
    }
}

} // verus!
