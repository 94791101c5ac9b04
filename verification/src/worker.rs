//! Decisions of the worker pool and of the parallel executor: what a worker
//! does after polling its queue, what a finished task reports, how a
//! group's results add up and when a run stops.  The waiting, spawning and
//! channel work around them belongs to the caller.
use vstd::prelude::*;
use crate::parallel::{GroupStats, ParallelError, WorkerStatus};
use crate::step::{Pipeline, PipelineStep};

verus! {

/// Pause of an idle worker before it polls its queue again, in
/// milliseconds.
pub const IDLE_POLL_MILLIS: u64 = 10;

/// What a worker found when it polled.
#[derive(Debug)]
pub enum WorkerPoll {
    /// The pool asked it to stop.
    ShutdownRequested,
    /// A task for the named step is ready.
    TaskReady(String),
    /// The queue is empty.
    QueueEmpty,
    /// The queue is closed.
    QueueClosed,
}

/// What a worker does next.
#[derive(Debug)]
pub enum WorkerAction {
    /// Stop for good.
    Stop,
    /// Run the named step.
    Run(String),
    /// Wait, then poll again.
    Wait { millis: u64 },
}

/// The next action of a worker after a poll, and the status it takes
/// (`None`: unchanged): it stops as finished on a shutdown request or a
/// closed queue, runs a ready task as running it, and waits briefly on an
/// empty queue.
pub fn worker_next(poll: WorkerPoll) -> (r: (WorkerAction, Option<WorkerStatus>))
    ensures
        match poll {
            WorkerPoll::ShutdownRequested => r.0 is Stop && r.1 matches Some(WorkerStatus::Finished),
            WorkerPoll::TaskReady(n) => (r.0 matches WorkerAction::Run(m) && m@ == n@) && (r.1 matches Some(
                WorkerStatus::Running(m),
            ) && m@ == n@),
            WorkerPoll::QueueEmpty => r.0 matches WorkerAction::Wait { millis } && millis == IDLE_POLL_MILLIS
                && r.1 is None,
            WorkerPoll::QueueClosed => r.0 is Stop && r.1 matches Some(WorkerStatus::Finished),
        },
{
    match poll {
        WorkerPoll::ShutdownRequested => (WorkerAction::Stop, Some(WorkerStatus::Finished)),
        WorkerPoll::TaskReady(n) => {
            let status = WorkerStatus::Running(n.clone());
            (WorkerAction::Run(n), Some(status))
        },
        WorkerPoll::QueueEmpty => (WorkerAction::Wait { millis: IDLE_POLL_MILLIS }, None),
        WorkerPoll::QueueClosed => (WorkerAction::Stop, Some(WorkerStatus::Finished)),
    }
}

/// How a task ended.
#[derive(Debug)]
pub enum TaskOutcome {
    /// The step ran to its end.
    Completed,
    /// The step failed with this message.
    Failed(String),
    /// The step ran out of time.
    TimedOut,
}

/// What a finished task reports: success, the step's failure as an
/// execution error, or a timeout naming the step.
pub fn task_result(step_name: &str, outcome: TaskOutcome) -> (r: Result<(), ParallelError>)
    ensures
        match outcome {
            TaskOutcome::Completed => r is Ok,
            TaskOutcome::Failed(m) => r matches Err(ParallelError::ExecutionError(e)) && e@ == m@,
            TaskOutcome::TimedOut => r matches Err(ParallelError::TimeoutError(n)) && n@ == step_name@,
        },
{
    match outcome {
        TaskOutcome::Completed => Ok(()),
        TaskOutcome::Failed(m) => Err(ParallelError::ExecutionError(m)),
        TaskOutcome::TimedOut => Err(ParallelError::TimeoutError(step_name.to_owned())),
    }
}

/// A worker's count of completed tasks and status after a task: one more
/// task, idle again.
pub fn worker_after_task(completed: usize) -> (r: (usize, WorkerStatus))
    requires
        completed < usize::MAX,
    ensures
        r.0 == completed + 1,
        r.1 is Idle,
{
    (completed + 1, WorkerStatus::Idle)
}

/// Counts a task of a group run one step after the other; the group stops
/// after a failed critical step.
pub fn record_sequential(stats: &mut GroupStats, succeeded: bool, critical: bool) -> (stop: bool)
    requires
        succeeded ==> old(stats).steps_executed < usize::MAX,
        !succeeded ==> old(stats).steps_failed < usize::MAX,
    ensures
        final(stats).steps_executed == old(stats).steps_executed + if succeeded { 1int } else { 0int },
        final(stats).steps_failed == old(stats).steps_failed + if succeeded { 0int } else { 1int },
        final(stats).steps_skipped == old(stats).steps_skipped,
        final(stats).has_critical_failure == (old(stats).has_critical_failure || (!succeeded && critical)),
        stop == (!succeeded && critical),
{
    stats.record(succeeded, critical);
    !succeeded && critical
}

/// Priority of a step's task on the worker queue: 100 for a critical step,
/// 50 otherwise.
pub fn task_priority(step: &PipelineStep) -> (r: u8)
    ensures
        r == if step.critical { 100u8 } else { 50u8 },
{
    if step.critical {
        100
    } else {
        50
    }
}

/// The first step of `steps` named `name` is critical.
pub open spec fn named_step_critical(steps: Seq<PipelineStep>, name: Seq<char>) -> bool {
    exists|i: int|
        #![trigger steps[i]]
        0 <= i < steps.len() && steps[i].name@ == name && steps[i].critical && forall|j: int|
            0 <= j < i ==> steps[j].name@ != name
}

/// Counts the result of the task of step `step_name` in a group run on the
/// workers: a success, or a failure that is critical when the pipeline's
/// step of that name is critical.
pub fn record_group_result(stats: &mut GroupStats, pipeline: &Pipeline, step_name: &str, succeeded: bool)
    requires
        succeeded ==> old(stats).steps_executed < usize::MAX,
        !succeeded ==> old(stats).steps_failed < usize::MAX,
    ensures
        final(stats).steps_executed == old(stats).steps_executed + if succeeded { 1int } else { 0int },
        final(stats).steps_failed == old(stats).steps_failed + if succeeded { 0int } else { 1int },
        final(stats).steps_skipped == old(stats).steps_skipped,
        final(stats).has_critical_failure == (old(stats).has_critical_failure || (!succeeded
            && named_step_critical(pipeline.steps@, step_name@))),
{
    let critical = match pipeline.get_step(step_name) {
        Some(s) => s.critical,
        None => false,
    };
    proof {
        if named_step_critical(pipeline.steps@, step_name@) {
            let i = choose|i: int|
                #![trigger pipeline.steps@[i]]
                0 <= i < pipeline.steps@.len() && pipeline.steps@[i].name@ == step_name@
                    && pipeline.steps@[i].critical && forall|j: int|
                    0 <= j < i ==> pipeline.steps@[j].name@ != step_name@;
            assert(pipeline.steps@[i].name@ == step_name@);
        }
    }
    stats.record(succeeded, critical);
}

/// Whether a group run on the workers waits for another result: fewer than
/// `total` results have come in and the run is not cancelled.
pub fn group_collect_continues(done: usize, total: usize, cancelled: bool) -> (r: bool)
    ensures
        r == (done < total && !cancelled),
{
    done < total && !cancelled
}

/// Whether a run goes on to its next group: not after a group with a failed
/// critical step, nor once the run is cancelled.
pub fn run_continues(group: &GroupStats, cancelled: bool) -> (r: bool)
    ensures
        r == (!group.has_critical_failure && !cancelled),
{
    !group.has_critical_failure && !cancelled
}

/// Totals of a parallel run.
#[derive(Debug, Clone, Copy)]
pub struct RunTotals {
    /// No step failed.
    pub success: bool,
    /// Steps that succeeded.
    pub steps_executed: usize,
    /// Steps that failed.
    pub steps_failed: usize,
    /// Steps that were skipped.
    pub steps_skipped: usize,
}

/// The totals of a run from its tally: it succeeded when no step failed.
pub fn run_totals(stats: &GroupStats) -> (r: RunTotals)
    ensures
        r.success == (stats.steps_failed == 0),
        r.steps_executed == stats.steps_executed,
        r.steps_failed == stats.steps_failed,
        r.steps_skipped == stats.steps_skipped,
{
    RunTotals {
        success: stats.steps_failed == 0,
        steps_executed: stats.steps_executed,
        steps_failed: stats.steps_failed,
        steps_skipped: stats.steps_skipped,
    }
}

/// The tally of a run handed to the sequential executor, from its counts of
/// successful, failed and skipped steps: any failure counts as critical.
pub fn tally_of_sequential_run(successful: u64, failed: u64, skipped: u64) -> (r: GroupStats)
    requires
        successful <= usize::MAX,
        failed <= usize::MAX,
        skipped <= usize::MAX,
    ensures
        r.steps_executed == successful,
        r.steps_failed == failed,
        r.steps_skipped == skipped,
        r.has_critical_failure == (failed > 0),
{
    GroupStats {
        steps_executed: successful as usize,
        steps_failed: failed as usize,
        steps_skipped: skipped as usize,
        has_critical_failure: failed > 0,
    }
}

} // verus!
