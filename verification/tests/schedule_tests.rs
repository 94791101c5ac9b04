use gaiaci::parallel::{
    ResourceAnalyzer, ResourceNeeds, ENV_CPU_INTENSIVE, ENV_EXCLUSIVE_ACCESS, ENV_MEMORY_INTENSIVE,
};
use gaiaci::schedule::{ExecutionScheduler, SchedulerLimits, TaskGroup};
use gaiaci::parallel::ParallelError;
use gaiaci::step::{Pipeline, PipelineStep};
use gaiaci::validator::PipelineValidator;

/// Limits of a configuration allowing `cpu_percent` of the machine's CPUs.
fn limits(cpu_percent: u64, max_memory_mb: u64, max_io_tasks: usize) -> SchedulerLimits {
    let cpus = num_cpus::get() as u64;
    SchedulerLimits {
        max_cpu_quarters: cpus * cpu_percent * 4 / 100,
        max_memory_mb,
        max_io_tasks,
    }
}

/// The limits of the minimal configuration.
fn minimal() -> SchedulerLimits {
    limits(50, 256, 1)
}

/// The limits of the automatic configuration.
fn auto_configure() -> SchedulerLimits {
    limits(80, 1024, 2)
}

fn create_test_pipeline() -> Pipeline {
    let mut pipeline = Pipeline::new("test");
    pipeline.add_step(PipelineStep::new("step1"));
    pipeline.add_step(PipelineStep::new("step2").with_dependency("step1"));
    pipeline.add_step(PipelineStep::new("step3").with_dependency("step1"));
    pipeline.add_step(PipelineStep::new("step4").with_dependency("step2").with_dependency("step3"));
    pipeline
}

#[test]
fn scheduler_test_execution_plan_creation() {
    let scheduler = ExecutionScheduler::new(minimal());
    let pipeline = create_test_pipeline();

    let plan = scheduler.create_execution_plan(&pipeline).unwrap();

    assert!(plan.task_groups.len() >= 3);
    assert_eq!(plan.total_steps(), 4);
    assert!(plan.max_parallelism >= 1);
}

#[test]
fn test_parallel_detection() {
    let scheduler = ExecutionScheduler::new(auto_configure());
    let pipeline = create_test_pipeline();

    let plan = scheduler.create_execution_plan(&pipeline).unwrap();

    let parallel_group = plan.task_groups.iter().find(|group| group.steps.len() > 1);

    if let Some(group) = parallel_group {
        assert!(group.can_run_parallel);
        assert!(group.steps.contains(&"step2".to_string()));
        assert!(group.steps.contains(&"step3".to_string()));
    }
}

#[test]
fn test_plan_summary() {
    let scheduler = ExecutionScheduler::new(minimal());
    let pipeline = create_test_pipeline();

    let plan = scheduler.create_execution_plan(&pipeline).unwrap();
    let summary = plan.summary();

    assert!(summary.contains("4 steps"));
    assert!(summary.contains("groups"));
}

#[test]
fn test_critical_path() {
    let scheduler = ExecutionScheduler::new(auto_configure());
    let mut pipeline = Pipeline::new("test");
    pipeline.add_step(PipelineStep::new("critical").with_timeout(120).with_critical(true));
    pipeline.add_step(PipelineStep::new("fast").with_timeout(5));

    let plan = scheduler.create_execution_plan(&pipeline).unwrap();

    assert!(plan.critical_path.contains(&"critical".to_string()));
}

#[test]
fn plan_groups_levels_and_estimates() {
    let scheduler = ExecutionScheduler::new(SchedulerLimits {
        max_cpu_quarters: 8,
        max_memory_mb: 4096,
        max_io_tasks: 2,
    });
    let mut pipeline = Pipeline::new("p");
    pipeline.add_step(PipelineStep::new("a").with_timeout(10));
    pipeline.add_step(PipelineStep::new("b").with_dependency("a").with_timeout(30));
    pipeline.add_step(PipelineStep::new("c").with_dependency("a").with_timeout(20));
    pipeline.add_step(PipelineStep::new("d").with_dependency("b").with_dependency("c"));
    let plan = scheduler.create_execution_plan(&pipeline).unwrap();

    let names: Vec<Vec<String>> = plan.task_groups.iter().map(|g| g.steps.clone()).collect();
    assert_eq!(names, vec![vec!["a".to_string()], vec!["b".to_string(), "c".to_string()], vec!["d".to_string()]]);
    assert!(plan.task_groups[1].can_run_parallel);
    assert_eq!(plan.task_groups[1].estimated_duration_seconds, Some(30));
    assert_eq!(plan.task_groups[1].resource_requirements.cpu_quarters, 2);
    assert_eq!(plan.task_groups[1].resource_requirements.memory_mb, 512);
    assert_eq!(plan.task_groups[2].estimated_duration_seconds, None);
    assert_eq!(plan.estimated_total_duration_seconds, Some(40));
    assert_eq!(plan.max_parallelism, 2);
    assert!(plan.benefits_from_parallelism());
    assert_eq!(plan.get_ready_steps(), vec!["a".to_string()]);
    // No group is critical (priority 50, under a minute): every step is on the path.
    assert_eq!(plan.critical_path, vec!["a", "b", "c", "d"]);
    assert_eq!(
        plan.summary(),
        "Execution Plan: 4 steps in 3 groups (1 parallel), estimated duration: ~40.0s, max parallelism: 2"
    );
}

#[test]
fn plan_runs_in_sequence_when_memory_is_short() {
    let scheduler = ExecutionScheduler::new(SchedulerLimits {
        max_cpu_quarters: 8,
        max_memory_mb: 256,
        max_io_tasks: 2,
    });
    let mut pipeline = Pipeline::new("p");
    pipeline.add_step(PipelineStep::new("x").with_timeout(30));
    pipeline.add_step(PipelineStep::new("y").with_timeout(45));
    let plan = scheduler.create_execution_plan(&pipeline).unwrap();
    assert_eq!(plan.task_groups.len(), 1);
    assert!(!plan.task_groups[0].can_run_parallel);
    // Run one after the other, the group takes the sum of its timeouts.
    assert_eq!(plan.task_groups[0].estimated_duration_seconds, Some(75));
    assert_eq!(plan.critical_path, vec!["x", "y"]);
    assert_eq!(plan.max_parallelism, 1);
    assert!(!plan.benefits_from_parallelism());
}

#[test]
fn plan_of_invalid_pipeline_is_refused() {
    let scheduler = ExecutionScheduler::new(minimal());
    let mut pipeline = Pipeline::new("p");
    pipeline.add_step(PipelineStep::new("a").with_dependency("missing"));
    match scheduler.create_execution_plan(&pipeline) {
        Err(ParallelError::Pipeline(m)) => assert!(m.starts_with("Step dependency error: ")),
        _ => panic!("expected a pipeline error"),
    }
}

#[test]
fn task_group_lookups() {
    let g = TaskGroup {
        steps: vec!["build".to_string(), "test".to_string()],
        can_run_parallel: false,
        resource_requirements: ResourceNeeds::default(),
        estimated_duration_seconds: None,
        priority: 50,
    };
    assert!(g.contains_step("test"));
    assert!(!g.contains_step("deploy"));
    assert_eq!(g.primary_step(), "build");
    let empty = TaskGroup { steps: vec![], ..g };
    assert_eq!(empty.primary_step(), "unknown");
}

#[test]
fn test_analyze_cpu_intensive_step() {
    let step = PipelineStep::new("cpu_task").with_env_var(ENV_CPU_INTENSIVE, "true");

    let requirements = ResourceAnalyzer::analyze_step(&step);

    // A full core, counted in quarters.
    assert_eq!(requirements.cpu_quarters, 4);
    assert!(requirements.memory_mb >= 256);
}

#[test]
fn test_analyze_memory_intensive_step() {
    let step = PipelineStep::new("memory_task").with_env_var(ENV_MEMORY_INTENSIVE, "true");

    let requirements = ResourceAnalyzer::analyze_step(&step);

    assert_eq!(requirements.memory_mb, 1024);
}

#[test]
fn test_exclusive_access_prevents_parallel() {
    let step1 = PipelineStep::new("exclusive").with_env_var(ENV_EXCLUSIVE_ACCESS, "true");
    let step2 = PipelineStep::new("normal");

    // 4.0 cores are 16 quarters.
    let can_parallel = ResourceAnalyzer::can_run_parallel(&[&step1, &step2], 16, 2048, 2);

    assert!(!can_parallel);
}

#[test]
fn test_resource_constraints() {
    let step1 = PipelineStep::new("task1").with_env_var(ENV_CPU_INTENSIVE, "true");
    let step2 = PipelineStep::new("task2").with_env_var(ENV_CPU_INTENSIVE, "true");

    // Should fail with only 1 CPU core (4 quarters) available
    let can_parallel = ResourceAnalyzer::can_run_parallel(&[&step1, &step2], 4, 2048, 2);
    assert!(!can_parallel);

    // Should succeed with 2 CPU cores (8 quarters) available
    let can_parallel = ResourceAnalyzer::can_run_parallel(&[&step1, &step2], 8, 2048, 2);
    assert!(can_parallel);
}

#[test]
fn test_combine_requirements() {
    let req1 = ResourceNeeds::cpu_intensive();
    let req2 = ResourceNeeds::memory_intensive();

    let combined = ResourceNeeds::combine(&[req1, req2]);

    // 1.5 cores are 6 quarters.
    assert_eq!(combined.cpu_quarters, 6);
    assert_eq!(combined.memory_mb, 2560);
    assert_eq!(combined.priority, 70);
}

#[test]
fn io_limit_blocks_running_together() {
    let a = PipelineStep::new("a").with_env_var("GAIA_IO_INTENSIVE", "yes");
    let b = PipelineStep::new("b").with_env_var("GAIA_NETWORK_INTENSIVE", "ON");
    assert!(!ResourceAnalyzer::can_run_parallel(&[&a, &b], 100, 10000, 1));
    assert!(ResourceAnalyzer::can_run_parallel(&[&a, &b], 100, 10000, 2));
    let io = ResourceNeeds::io_intensive();
    assert!(io.disk_io_intensive && io.cpu_quarters == 1 && io.priority == 50);
    let ex = ResourceNeeds::exclusive();
    assert!(ex.requires_exclusive_access && ex.memory_mb == 4096 && ex.priority == 100);
}

#[test]
fn needs_of_a_whole_pipeline() {
    let pipeline = Pipeline::new("p")
        .with_step(PipelineStep::new("build").with_env_var(ENV_CPU_INTENSIVE, "1"))
        .with_step(PipelineStep::new("deploy").with_critical(true));
    let needs = ResourceAnalyzer::analyze_pipeline(&pipeline);
    assert_eq!(needs.len(), 2);
    assert_eq!(needs.get("build").unwrap().cpu_quarters, 4);
    assert_eq!(needs.get("deploy").unwrap().priority, 90);
    assert_eq!(needs.get("deploy").unwrap().cpu_quarters, 1);
}

#[test]
fn dependents_of_a_step() {
    let steps = vec![
        PipelineStep::new("a"),
        PipelineStep::new("b").with_dependency("a"),
        PipelineStep::new("c").with_dependency("b"),
        PipelineStep::new("d").with_dependency("a"),
    ];
    let names: Vec<&str> = PipelineValidator::find_dependent_steps(&steps, "a").iter().map(|s| s.name.as_str()).collect();
    assert_eq!(names, vec!["b", "d"]);
    assert!(PipelineValidator::find_dependent_steps(&steps, "c").is_empty());
}
