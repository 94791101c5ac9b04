use gaiaci::error::PipelineError;
use gaiaci::runtime::{step_outcome, LuaRuntime, RuntimeError, StepOutcome};
use gaiaci::step::{Pipeline, PipelineStep};
use gaiaci::strmap::StrMap;
use mlua::Lua;

/// A runtime whose `gaia.log` records nothing.
fn runtime() -> LuaRuntime {
    let lua = Lua::new();
    lua.load("gaia = { log = { info = function(m) end, warn = function(m) end } }").exec().unwrap();
    LuaRuntime::with_lua(lua).unwrap()
}

fn no_env(_: &StrMap<String>) {}

#[test]
fn test_runtime_creation() {
    let runtime = LuaRuntime::with_lua(Lua::new());
    assert!(runtime.is_ok());
}

#[test]
fn test_simple_pipeline_loading() {
    let mut runtime = runtime();

    let script = r#"
        pipeline = {
            name = "Test Pipeline",
            description = "A simple test pipeline",
            steps = {
                {
                    name = "hello",
                    description = "Say hello",
                    action = function()
                        gaia.log.info("Hello from pipeline!")
                    end
                }
            }
        }
    "#;

    let result = runtime.load_pipeline(script);
    assert!(result.is_ok());

    let pipeline = result.unwrap();
    assert_eq!(pipeline.name, "Test Pipeline");
    assert_eq!(pipeline.steps.len(), 1);
    assert_eq!(pipeline.steps[0].name, "hello");
    assert_eq!(runtime.stats().scripts_loaded, 1);
}

#[test]
fn test_pipeline_with_environment() {
    let mut runtime = runtime();

    let script = r#"
        pipeline = {
            name = "Env Test",
            env = {
                NODE_ENV = "test",
                DEBUG = "true"
            },
            steps = {
                {
                    name = "check_env",
                    action = function()
                        local node_env = gaia.env.get("NODE_ENV")
                        gaia.log.info("NODE_ENV: " .. (node_env or "not set"))
                    end
                }
            }
        }
    "#;

    let result = runtime.load_pipeline(script);
    assert!(result.is_ok());

    let pipeline = result.unwrap();
    assert_eq!(pipeline.env.len(), 2);
    assert_eq!(pipeline.env.get("NODE_ENV"), Some(&"test".to_string()));
}

#[test]
fn test_runtime_functions_available() {
    let runtime = runtime();

    let result = runtime.lua().load(r#"
        return type(runtime) == "table" and
               type(runtime.current_step) == "function" and
               type(runtime.skip_step) == "function"
    "#).eval::<bool>();

    assert!(result.is_ok());
    assert!(result.unwrap());
    let text: String = runtime.lua().load("return runtime.skip_step()").eval().unwrap();
    assert_eq!(text, "Step skipped");
}

#[test]
fn script_without_pipeline_is_refused() {
    let mut runtime = runtime();
    match runtime.load_pipeline("x = 1") {
        Err(RuntimeError::PipelineError(PipelineError::ParseError(m))) => {
            assert_eq!(m, "No 'pipeline' table found in script")
        }
        other => panic!("unexpected {:?}", other.map(|p| p.name)),
    }
    assert!(matches!(runtime.load_pipeline("this is not lua"), Err(RuntimeError::LuaError(_))));
    assert_eq!(runtime.stats().scripts_loaded, 2);
}

#[test]
fn steps_run_skip_and_fail() {
    let mut runtime = runtime();
    let pipeline = Pipeline::new("p");

    let ok = PipelineStep::new("ok").with_action("x = 1");
    runtime.execute_step(&ok, &pipeline, &no_env).unwrap();
    assert_eq!(runtime.executor_stats().steps_executed, 1);

    let skipped = PipelineStep::new("skip").with_condition("1 > 2").with_action("x = 2");
    runtime.execute_step(&skipped, &pipeline, &no_env).unwrap();
    assert_eq!(runtime.executor_stats().skipped_steps, 1);

    let failing = PipelineStep::new("bad").with_action("error('boom')");
    match runtime.execute_step(&failing, &pipeline, &no_env) {
        Err(RuntimeError::PipelineError(PipelineError::StepError { step, reason })) => {
            assert_eq!(step, "bad");
            assert!(reason.contains("boom"));
        }
        other => panic!("unexpected {:?}", other),
    }
    assert_eq!(runtime.stats().failed_steps, 1);
    assert_eq!(runtime.executor_stats().failed_steps, 1);

    let silent = PipelineStep::new("silent");
    runtime.execute_step(&silent, &pipeline, &no_env).unwrap();
    assert_eq!(runtime.stats().steps_executed, 4);
    assert_eq!(runtime.executor_stats().steps_executed, 3);

    runtime.reset_stats();
    assert_eq!(runtime.stats().steps_executed, 0);
    assert_eq!(runtime.executor_stats().steps_executed, 0);
}

#[test]
fn pipeline_runs_every_step() {
    let mut runtime = runtime();
    let pipeline = Pipeline::new("p")
        .with_step(PipelineStep::new("a").with_action("y = 1"))
        .with_step(PipelineStep::new("b").with_action("y = y + 1"));
    runtime.execute_pipeline(&pipeline, &no_env).unwrap();
    assert_eq!(runtime.stats().steps_executed, 2);
    let y: i64 = runtime.lua().load("return y").eval().unwrap();
    assert_eq!(y, 2);
}

#[test]
fn pipeline_runs_steps_in_dependency_order() {
    let mut runtime = runtime();
    let pipeline = Pipeline::new("p")
        .with_step(PipelineStep::new("b").with_dependency("a").with_action("order = order .. 'b'"))
        .with_step(PipelineStep::new("a").with_action("order = (order or '') .. 'a'"));
    runtime.execute_pipeline(&pipeline, &no_env).unwrap();
    let order: String = runtime.lua().load("return order").eval().unwrap();
    assert_eq!(order, "ab");
}

#[test]
fn pipeline_stops_at_first_failing_step() {
    let mut runtime = runtime();
    let pipeline = Pipeline::new("p")
        .with_step(PipelineStep::new("a").with_action("z = 1"))
        .with_step(PipelineStep::new("b").with_dependency("a").with_action("error('stop')"))
        .with_step(PipelineStep::new("c").with_dependency("b").with_action("z = 3"));
    match runtime.execute_pipeline(&pipeline, &no_env) {
        Err(RuntimeError::PipelineError(PipelineError::StepError { step, .. })) => assert_eq!(step, "b"),
        other => panic!("unexpected {:?}", other),
    }
    assert_eq!(runtime.stats().steps_executed, 2);
    let z: i64 = runtime.lua().load("return z").eval().unwrap();
    assert_eq!(z, 1);
}

#[test]
fn pipeline_with_cycle_is_refused() {
    let mut runtime = runtime();
    let pipeline = Pipeline::new("p")
        .with_step(PipelineStep::new("a").with_dependency("b"))
        .with_step(PipelineStep::new("b").with_dependency("a"));
    assert!(matches!(
        runtime.execute_pipeline(&pipeline, &no_env),
        Err(RuntimeError::PipelineError(PipelineError::DependencyCycle))
    ));
    assert_eq!(runtime.stats().steps_executed, 0);
}

#[test]
fn broken_condition_is_a_lua_error() {
    let mut runtime = runtime();
    let pipeline = Pipeline::new("p");
    let step = PipelineStep::new("c").with_condition("this is not lua").with_action("w = 1");
    assert!(matches!(runtime.execute_step(&step, &pipeline, &no_env), Err(RuntimeError::LuaError(_))));
    assert_eq!(runtime.stats().steps_executed, 1);
    assert_eq!(runtime.executor_stats().steps_executed, 0);
}

#[test]
fn step_outcomes() {
    assert_eq!(step_outcome(None, true, true), StepOutcome::LuaFailed);
    assert_eq!(step_outcome(Some(false), true, true), StepOutcome::Skipped);
    assert_eq!(step_outcome(Some(true), true, true), StepOutcome::Succeeded);
    assert_eq!(step_outcome(Some(true), true, false), StepOutcome::ActionFailed);
    assert_eq!(step_outcome(Some(true), false, false), StepOutcome::LuaFailed);
    assert_eq!(step_outcome(Some(true), false, true), StepOutcome::Succeeded);
}
