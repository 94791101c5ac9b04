use gaiaci::config::RetryConfig;
use gaiaci::critical::CriticalPathAnalysis;
use gaiaci::error::PipelineError;
use gaiaci::step::{Pipeline, PipelineStep};
use gaiaci::validator::PipelineValidator;

#[test]
fn test_pipeline_creation() {
    let pipeline = Pipeline::new("test-pipeline")
        .with_description("A test pipeline")
        .with_version("1.0.0")
        .with_env_var("TEST_VAR", "test_value")
        .with_metadata("team", "core");

    assert_eq!(pipeline.name, "test-pipeline");
    assert_eq!(pipeline.description, Some("A test pipeline".to_string()));
    assert_eq!(pipeline.version, Some("1.0.0".to_string()));
    assert_eq!(pipeline.env.get("TEST_VAR"), Some(&"test_value".to_string()));
    assert_eq!(pipeline.metadata.get("team"), Some(&"core".to_string()));
}

#[test]
fn test_step_creation() {
    let step = PipelineStep::new("test-step")
        .with_description("A test step")
        .with_condition("true")
        .with_dependency("setup")
        .with_env_var("STEP_VAR", "value")
        .with_critical(true)
        .with_parallel(true)
        .with_timeout(300);

    assert_eq!(step.name, "test-step");
    assert_eq!(step.description, Some("A test step".to_string()));
    assert_eq!(step.condition, Some("true".to_string()));
    assert_eq!(step.depends_on, vec!["setup"]);
    assert_eq!(step.env.get("STEP_VAR"), Some(&"value".to_string()));
    assert!(step.critical);
    assert!(step.parallel);
    assert_eq!(step.timeout_seconds, Some(300));
}

#[test]
fn test_step_can_run() {
    let step = PipelineStep::new("test")
        .with_dependency("dep1")
        .with_dependency("dep2");

    assert!(!step.can_run(&[]));
    assert!(!step.can_run(&["dep1".to_string()]));
    assert!(step.can_run(&["dep1".to_string(), "dep2".to_string()]));
    assert!(step.can_run(&["dep1".to_string(), "dep2".to_string(), "extra".to_string()]));
}

#[test]
fn test_retry_delay() {
    let step = PipelineStep::new("test").with_retry(
        RetryConfig::new()
            .with_delay(2)
            .with_exponential_backoff(true)
            .with_max_delay(60),
    );

    assert_eq!(step.retry_delay(0), 2);
    assert_eq!(step.retry_delay(1), 4);
    assert_eq!(step.retry_delay(2), 8);
    assert_eq!(step.retry_delay(10), 60);
}

#[test]
fn retry_delay_saturates_for_any_attempt() {
    let step = PipelineStep::new("big").with_retry(
        RetryConfig::new()
            .with_delay(u64::MAX / 2)
            .with_exponential_backoff(true)
            .with_max_delay(u64::MAX),
    );
    assert_eq!(step.retry_delay(0), u64::MAX / 2);
    assert_eq!(step.retry_delay(1), u64::MAX - 1);
    assert_eq!(step.retry_delay(2), u64::MAX);
    assert_eq!(step.retry_delay(64), u64::MAX);
    assert_eq!(step.retry_delay(u32::MAX), u64::MAX);
    let capped = PipelineStep::new("c").with_retry(
        RetryConfig::new().with_delay(100).with_exponential_backoff(true).with_max_delay(30),
    );
    assert_eq!(capped.retry_delay(0), 30);
    let flat = PipelineStep::new("f").with_retry(RetryConfig::new().with_delay(7).with_max_delay(1));
    assert_eq!(flat.retry_delay(100), 7);
}

#[test]
fn test_pipeline_dependent_steps() {
    let mut pipeline = Pipeline::new("test");
    pipeline.add_step(PipelineStep::new("step1"));
    pipeline.add_step(PipelineStep::new("step2").with_dependency("step1"));
    pipeline.add_step(PipelineStep::new("step3").with_dependency("step1"));
    pipeline.add_step(PipelineStep::new("step4").with_dependency("step2"));

    let dependents = pipeline.dependent_steps("step1");
    assert_eq!(dependents.len(), 2);
    assert!(dependents.iter().any(|s| s.name == "step2"));
    assert!(dependents.iter().any(|s| s.name == "step3"));

    let step4_deps = pipeline.dependent_steps("step2");
    assert_eq!(step4_deps.len(), 1);
    assert_eq!(step4_deps[0].name, "step4");
}

#[test]
fn test_dependency_cycle_detection() {
    let steps = vec![
        PipelineStep::new("step1").with_dependency("step2"),
        PipelineStep::new("step2").with_dependency("step3"),
        PipelineStep::new("step3").with_dependency("step1"),
    ];

    assert!(PipelineValidator::has_dependency_cycles(&steps));
}

#[test]
fn test_no_dependency_cycle() {
    let steps = vec![
        PipelineStep::new("step1"),
        PipelineStep::new("step2").with_dependency("step1"),
        PipelineStep::new("step3").with_dependency("step2"),
    ];

    assert!(!PipelineValidator::has_dependency_cycles(&steps));
}

#[test]
fn test_step_ordering() {
    let steps = vec![
        PipelineStep::new("step3").with_dependency("step1").with_dependency("step2"),
        PipelineStep::new("step1"),
        PipelineStep::new("step2").with_dependency("step1"),
    ];

    let ordered = PipelineValidator::order_steps_by_dependencies(&steps).unwrap();
    let names: Vec<&str> = ordered.iter().map(|s| s.name.as_str()).collect();

    assert_eq!(names[0], "step1");
    assert_eq!(names[1], "step2");
    assert_eq!(names[2], "step3");
}

#[test]
fn test_find_ready_steps() {
    let steps = vec![
        PipelineStep::new("step1"),
        PipelineStep::new("step2").with_dependency("step1"),
        PipelineStep::new("step3").with_dependency("step1"),
        PipelineStep::new("step4").with_dependency("step2").with_dependency("step3"),
    ];

    let ready = PipelineValidator::find_ready_steps(&steps, &[]);
    assert_eq!(ready.len(), 1);
    assert_eq!(ready[0].name, "step1");

    let ready = PipelineValidator::find_ready_steps(&steps, &["step1".to_string()]);
    assert_eq!(ready.len(), 2);
    let ready_names: Vec<&str> = ready.iter().map(|s| s.name.as_str()).collect();
    assert!(ready_names.contains(&"step2"));
    assert!(ready_names.contains(&"step3"));

    let ready = PipelineValidator::find_ready_steps(
        &steps,
        &["step1".to_string(), "step2".to_string(), "step3".to_string()],
    );
    assert_eq!(ready.len(), 1);
    assert_eq!(ready[0].name, "step4");
}

#[test]
fn test_pipeline_validation() {
    let mut valid_pipeline = Pipeline::new("test");
    valid_pipeline.add_step(PipelineStep::new("step1"));
    valid_pipeline.add_step(PipelineStep::new("step2").with_dependency("step1"));
    assert!(PipelineValidator::validate(&valid_pipeline).is_ok());

    let mut invalid_pipeline = Pipeline::new("test");
    invalid_pipeline.add_step(PipelineStep::new("step1"));
    invalid_pipeline.add_step(PipelineStep::new("step1"));
    assert!(PipelineValidator::validate(&invalid_pipeline).is_err());

    let mut invalid_dep_pipeline = Pipeline::new("test");
    invalid_dep_pipeline.add_step(PipelineStep::new("step1").with_dependency("nonexistent"));
    assert!(PipelineValidator::validate(&invalid_dep_pipeline).is_err());

    let mut self_dep_pipeline = Pipeline::new("test");
    self_dep_pipeline.add_step(PipelineStep::new("step1").with_dependency("step1"));
    assert!(PipelineValidator::validate(&self_dep_pipeline).is_err());
}

#[test]
fn test_find_next_ready_steps() {
    let steps = vec![
        PipelineStep::new("step1"),
        PipelineStep::new("step2").with_dependency("step1"),
        PipelineStep::new("step3").with_dependency("step1"),
        PipelineStep::new("step4").with_dependency("step2").with_dependency("step3"),
    ];

    let next_ready = PipelineValidator::find_next_ready_steps(&steps, &[], "step1");
    assert_eq!(next_ready.len(), 2);
    let ready_names: Vec<&str> = next_ready.iter().map(|s| s.name.as_str()).collect();
    assert!(ready_names.contains(&"step2"));
    assert!(ready_names.contains(&"step3"));

    let next_ready =
        PipelineValidator::find_next_ready_steps(&steps, &["step1".to_string()], "step2");
    assert_eq!(next_ready.len(), 0);

    let next_ready = PipelineValidator::find_next_ready_steps(
        &steps,
        &["step1".to_string(), "step2".to_string()],
        "step3",
    );
    assert_eq!(next_ready.len(), 1);
    assert_eq!(next_ready[0].name, "step4");
}

fn diamond() -> Pipeline {
    let mut p = Pipeline::new("diamond");
    p.add_step(PipelineStep::new("s1"));
    p.add_step(
        PipelineStep::new("s2")
            .with_dependency("s1")
            .with_metadata("estimated_duration_seconds", "30"),
    );
    p.add_step(
        PipelineStep::new("s3")
            .with_dependency("s1")
            .with_metadata("estimated_duration_seconds", "120"),
    );
    p.add_step(
        PipelineStep::new("s4")
            .with_dependency("s2")
            .with_dependency("s3")
            .with_metadata("estimated_duration_seconds", "10"),
    );
    p
}

#[test]
fn critical_path_of_diamond() {
    let p = diamond();
    let a: CriticalPathAnalysis = PipelineValidator::analyze_critical_path(&p).unwrap();
    assert_eq!(a.total_duration, 190);
    assert_eq!(a.critical_steps, vec!["s1", "s3", "s4"]);
    assert_eq!(a.step_earliest_start.get("s1"), Some(&0));
    assert_eq!(a.step_earliest_start.get("s2"), Some(&60));
    assert_eq!(a.step_earliest_start.get("s3"), Some(&60));
    assert_eq!(a.step_earliest_start.get("s4"), Some(&180));
    assert_eq!(a.step_latest_start.get("s1"), Some(&0));
    assert_eq!(a.step_latest_start.get("s2"), Some(&150));
    assert_eq!(a.step_latest_start.get("s3"), Some(&60));
    assert_eq!(a.step_latest_start.get("s4"), Some(&180));
    assert_eq!(a.step_slack.get("s2"), Some(&90));
    assert_eq!(a.step_slack.get("s4"), Some(&0));
    assert_eq!(a.step_slack.len(), 4);
}

#[test]
fn critical_path_missing_dependency_counts_one_minute() {
    let mut p = Pipeline::new("p");
    p.add_step(PipelineStep::new("a").with_dependency("ghost"));
    let a = PipelineValidator::analyze_critical_path(&p).unwrap();
    assert_eq!(a.step_earliest_start.get("a"), Some(&60));
    assert_eq!(a.total_duration, 120);
    assert_eq!(a.critical_steps, vec!["a"]);
}

#[test]
fn critical_path_of_cycle_is_refused() {
    let mut p = Pipeline::new("p");
    p.add_step(PipelineStep::new("a").with_dependency("b"));
    p.add_step(PipelineStep::new("b").with_dependency("a"));
    assert!(matches!(
        PipelineValidator::analyze_critical_path(&p),
        Err(PipelineError::DependencyCycle)
    ));
}

#[test]
fn critical_path_of_empty_pipeline() {
    let p = Pipeline::new("empty");
    let a = PipelineValidator::analyze_critical_path(&p).unwrap();
    assert_eq!(a.total_duration, 0);
    assert!(a.critical_steps.is_empty());
    assert!(a.step_slack.is_empty());
}
