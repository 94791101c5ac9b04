use gaiaci::parallel::{GroupStats, ParallelError, WorkerStatus};
use gaiaci::step::{Pipeline, PipelineStep};
use gaiaci::worker::{
    group_collect_continues, record_group_result, task_priority, record_sequential, run_continues, run_totals, tally_of_sequential_run, task_result, worker_after_task,
    worker_next, TaskOutcome, WorkerAction, WorkerPoll, IDLE_POLL_MILLIS,
};

#[test]
fn worker_reacts_to_each_poll() {
    assert!(matches!(worker_next(WorkerPoll::ShutdownRequested), (WorkerAction::Stop, Some(WorkerStatus::Finished))));
    assert!(matches!(worker_next(WorkerPoll::QueueClosed), (WorkerAction::Stop, Some(WorkerStatus::Finished))));
    match worker_next(WorkerPoll::TaskReady("build".to_string())) {
        (WorkerAction::Run(n), Some(WorkerStatus::Running(m))) => {
            assert_eq!(n, "build");
            assert_eq!(m, "build");
        }
        other => panic!("unexpected {:?}", other),
    }
    match worker_next(WorkerPoll::QueueEmpty) {
        (WorkerAction::Wait { millis }, None) => assert_eq!(millis, IDLE_POLL_MILLIS),
        other => panic!("unexpected {:?}", other),
    }
    let (count, status) = worker_after_task(4);
    assert_eq!(count, 5);
    assert!(matches!(status, WorkerStatus::Idle));
}

#[test]
fn task_results() {
    assert!(task_result("s", TaskOutcome::Completed).is_ok());
    match task_result("s", TaskOutcome::Failed("boom".to_string())) {
        Err(ParallelError::ExecutionError(m)) => assert_eq!(m, "boom"),
        other => panic!("unexpected {:?}", other),
    }
    match task_result("slow", TaskOutcome::TimedOut) {
        Err(ParallelError::TimeoutError(m)) => assert_eq!(m, "slow"),
        other => panic!("unexpected {:?}", other),
    }
}

#[test]
fn sequential_group_stops_after_critical_failure() {
    let mut stats = GroupStats::new();
    assert!(!record_sequential(&mut stats, true, true));
    assert!(!record_sequential(&mut stats, false, false));
    assert!(!stats.has_critical_failure);
    assert!(record_sequential(&mut stats, false, true));
    assert_eq!((stats.steps_executed, stats.steps_failed), (1, 2));
    assert!(stats.has_critical_failure);
    assert!(!run_continues(&stats, false));
    assert!(run_continues(&GroupStats::new(), false));
    assert!(!run_continues(&GroupStats::new(), true));
}

#[test]
fn run_totals_and_merge() {
    let mut total = GroupStats::new();
    let mut g = GroupStats::new();
    g.record(true, false);
    g.record(true, false);
    total.merge(&g);
    total.merge(&tally_of_sequential_run(1, 0, 3));
    let t = run_totals(&total);
    assert!(t.success);
    assert_eq!((t.steps_executed, t.steps_failed, t.steps_skipped), (3, 0, 3));
    let failed = tally_of_sequential_run(0, 1, 0);
    assert!(failed.has_critical_failure);
    assert!(!run_totals(&failed).success);
}

#[test]
fn group_results_are_charged_to_their_step() {
    let pipeline = Pipeline::new("p")
        .with_step(PipelineStep::new("a"))
        .with_step(PipelineStep::new("b").with_critical(true));
    let mut stats = GroupStats::new();
    record_group_result(&mut stats, &pipeline, "a", false);
    assert_eq!(stats.steps_failed, 1);
    assert!(!stats.has_critical_failure);
    record_group_result(&mut stats, &pipeline, "b", true);
    assert_eq!(stats.steps_executed, 1);
    assert!(!stats.has_critical_failure);
    record_group_result(&mut stats, &pipeline, "b", false);
    assert!(stats.has_critical_failure);
    record_group_result(&mut stats, &pipeline, "missing", false);
    assert_eq!(stats.steps_failed, 3);
}

#[test]
fn task_priorities_and_collection() {
    assert_eq!(task_priority(&PipelineStep::new("a")), 50);
    assert_eq!(task_priority(&PipelineStep::new("a").with_critical(true)), 100);
    assert!(group_collect_continues(0, 2, false));
    assert!(!group_collect_continues(2, 2, false));
    assert!(!group_collect_continues(0, 2, true));
}
