use gaiaci::error::PipelineError;
use gaiaci::executor::{PipelineExecutor, StepExecutionContext, StepExecutionResult};
use gaiaci::step::{Pipeline, PipelineStep, StepStatus};
use gaiaci::config::{PipelineConfig, RetryConfig};
use std::cell::RefCell;

#[test]
fn test_execution_stats() {
    let mut executor = PipelineExecutor::new();

    executor.record_step_execution_simple(true, 100);
    executor.record_step_execution_simple(false, 200);
    executor.record_step_skipped();
    executor.record_retry();

    let stats = executor.stats();
    assert_eq!(stats.steps_executed, 2);
    assert_eq!(stats.failed_steps, 1);
    assert_eq!(stats.skipped_steps, 1);
    assert_eq!(stats.retried_steps, 1);
    assert_eq!(stats.total_execution_time_ms, 300);
}

#[test]
fn test_step_execution_result() {
    let success = StepExecutionResult::success(100, Some("Success output".to_string()));
    assert_eq!(success.status, StepStatus::Success);
    assert_eq!(success.duration_ms, 100);
    assert!(!success.should_retry);

    let failure = StepExecutionResult::failure(200, "Error message".to_string(), Some(1), true);
    assert_eq!(failure.status, StepStatus::Failed);
    assert!(failure.should_retry);
    assert_eq!(failure.exit_code, Some(1));
}

#[test]
fn executor_test_execution_plan_creation() {
    let mut pipeline = Pipeline::new("test");
    pipeline.add_step(PipelineStep::new("step1"));
    pipeline.add_step(PipelineStep::new("step2").with_dependency("step1"));

    let plan = PipelineExecutor::create_execution_plan(&pipeline).unwrap();
    assert_eq!(plan.ordered_steps.len(), 2);
    assert_eq!(plan.ordered_steps[0], "step1");
    assert_eq!(plan.ordered_steps[1], "step2");
    assert_eq!(plan.parallel_groups, vec![plan.ordered_steps.clone()]);
    assert_eq!(plan.critical_path, plan.ordered_steps);
    assert_eq!(plan.estimated_duration_seconds, None);
}

#[test]
fn test_env_overrides() {
    let mut pipeline = Pipeline::new("test").with_env_var("PIPELINE_VAR", "pipeline_value");
    pipeline.config = PipelineConfig::new().with_global_env("GLOBAL_VAR", "global_value");

    let step = PipelineStep::new("test_step")
        .with_env_var("STEP_VAR", "step_value")
        .with_env_var("PIPELINE_VAR", "overridden_value");

    let executor = PipelineExecutor::new();
    let env = executor.build_env_overrides(&step, &pipeline);

    assert_eq!(env.get("GLOBAL_VAR"), Some(&"global_value".to_string()));
    assert_eq!(env.get("PIPELINE_VAR"), Some(&"overridden_value".to_string()));
    assert_eq!(env.get("STEP_VAR"), Some(&"step_value".to_string()));
}

#[test]
fn record_step_execution_counts_and_keeps_result() {
    let mut executor = PipelineExecutor::new();
    let mut retried = StepExecutionResult::failure(50, "boom".to_string(), Some(2), false);
    retried.attempt = 1;
    executor.record_step_execution("a".to_string(), retried);
    executor.record_step_execution("b".to_string(), StepExecutionResult::skipped("later".to_string()));
    executor.record_step_execution("c".to_string(), StepExecutionResult::cancelled(7));
    let stats = executor.stats();
    assert_eq!(stats.failed_steps, 1);
    assert_eq!(stats.skipped_steps, 1);
    assert_eq!(stats.cancelled_steps, 1);
    assert_eq!(stats.retried_steps, 1);
    assert_eq!(stats.total_execution_time_ms, 57);
    assert_eq!(executor.execution_order(), &["a".to_string(), "b".to_string(), "c".to_string()]);
    assert_eq!(executor.step_results().len(), 3);
    assert_eq!(
        executor.step_results().get("c").unwrap().error,
        Some("Step was cancelled".to_string())
    );
    executor.reset_stats();
    assert_eq!(executor.stats().failed_steps, 0);
    assert!(executor.execution_order().is_empty());
    assert!(executor.step_results().is_empty());
}

fn two_steps() -> Pipeline {
    let mut pipeline = Pipeline::new("run");
    pipeline.add_step(PipelineStep::new("build"));
    pipeline.add_step(PipelineStep::new("test").with_dependency("build"));
    pipeline
}

#[test]
fn execute_pipeline_runs_steps_in_dependency_order() {
    let mut executor = PipelineExecutor::new();
    let seen = RefCell::new(Vec::new());
    let r = executor.execute_pipeline(
        &two_steps(),
        |step: &PipelineStep, ctx: &StepExecutionContext| {
            seen.borrow_mut().push((step.name.clone(), ctx.attempt));
            Ok(StepExecutionResult::success(5, None))
        },
        |_| {},
    );
    assert!(r.is_ok());
    assert_eq!(
        *seen.borrow(),
        vec![("build".to_string(), 0), ("test".to_string(), 0)]
    );
    assert_eq!(executor.execution_order(), &["build".to_string(), "test".to_string()]);
    assert_eq!(executor.stats().steps_executed, 2);
}

#[test]
fn execute_pipeline_retries_with_delays() {
    let mut pipeline = Pipeline::new("retry");
    pipeline.add_step(PipelineStep::new("flaky").with_retry(
        RetryConfig::new().with_max_attempts(3).with_delay(2).with_exponential_backoff(true),
    ));
    let mut executor = PipelineExecutor::new();
    let waits = RefCell::new(Vec::new());
    let calls = RefCell::new(0u32);
    let r = executor.execute_pipeline(
        &pipeline,
        |_step: &PipelineStep, _ctx: &StepExecutionContext| {
            *calls.borrow_mut() += 1;
            Ok(StepExecutionResult::failure(1, "flaky".to_string(), Some(1), true))
        },
        |d| waits.borrow_mut().push(d),
    );
    assert!(r.is_ok());
    assert_eq!(*calls.borrow(), 3);
    assert_eq!(*waits.borrow(), vec![4, 8]);
    assert_eq!(executor.stats().retried_steps, 2);
    assert_eq!(executor.stats().failed_steps, 1);
}

#[test]
fn execute_pipeline_stops_on_critical_failure() {
    let mut pipeline = Pipeline::new("crit");
    pipeline.add_step(PipelineStep::new("deploy").with_critical(true));
    pipeline.add_step(PipelineStep::new("notify").with_dependency("deploy"));
    let mut executor = PipelineExecutor::new();
    let r = executor.execute_pipeline(
        &pipeline,
        |_s: &PipelineStep, _c: &StepExecutionContext| {
            Ok(StepExecutionResult::failure(1, "no access".to_string(), None, false))
        },
        |_| {},
    );
    match r {
        Err(PipelineError::StepError { step, reason }) => {
            assert_eq!(step, "deploy");
            assert_eq!(reason, "no access");
        }
        other => panic!("unexpected {:?}", other),
    }
    assert!(executor.execution_order().is_empty());
    assert_eq!(executor.stats().failed_steps, 1);
}

#[test]
fn execute_pipeline_refuses_invalid_pipeline() {
    let mut executor = PipelineExecutor::new();
    let r = executor.execute_pipeline(
        &Pipeline::new("empty"),
        |_s: &PipelineStep, _c: &StepExecutionContext| Ok(StepExecutionResult::success(0, None)),
        |_| {},
    );
    match r {
        Err(PipelineError::ParseError(m)) => assert_eq!(m, "Pipeline must have at least one step"),
        other => panic!("unexpected {:?}", other),
    }
}

#[test]
fn cancelled_executor_runs_nothing() {
    let mut executor = PipelineExecutor::new();
    executor.cancel();
    assert!(executor.is_cancelled());
    let r = executor.execute_pipeline(
        &two_steps(),
        |_s: &PipelineStep, _c: &StepExecutionContext| Ok(StepExecutionResult::success(0, None)),
        |_| {},
    );
    assert!(r.is_ok());
    assert!(executor.execution_order().is_empty());
}

#[test]
fn test_execution_summary() {
    let mut executor = PipelineExecutor::new();
    executor.record_step_execution_simple(true, 100);
    executor.record_step_execution_simple(true, 150);
    executor.record_step_execution_simple(false, 200);

    let summary = executor.execution_summary();
    assert_eq!(summary.total_steps, 3);
    assert_eq!(summary.successful_steps, 2);
    assert_eq!(summary.failed_steps, 1);
    let (successful, total) = summary.success_ratio();
    assert_eq!(successful as f64 * 100.0 / total as f64, 200.0 / 3.0);
    assert_eq!(summary.total_duration_ms, 450);
}
