use gaiaci::config::{FailureStrategy, RetryCondition};
use gaiaci::error::PipelineError;
use gaiaci::lua_table::{LuaTable, ReadLog};
use gaiaci::parser::PipelineParser;
use mlua::{Lua, Table};

#[test]
fn test_parse_simple_pipeline_table() {
    let lua = Lua::new();
    let pipeline_script = r#"
        return {
            name = "test-pipeline",
            description = "A test pipeline",
            steps = {
                {
                    name = "step1",
                    description = "First step",
                    action = function() end
                }
            }
        }
    "#;

    let table: Table = lua.load(pipeline_script).eval().unwrap();
    let pipeline = PipelineParser::parse_pipeline_table(&LuaTable::new(table), &mut ReadLog::new()).unwrap();

    assert_eq!(pipeline.name, "test-pipeline");
    assert_eq!(pipeline.description, Some("A test pipeline".to_string()));
    assert_eq!(pipeline.steps.len(), 1);
    assert_eq!(pipeline.steps[0].name, "step1");
    assert_eq!(pipeline.steps[0].action, Some("pipeline.steps[1].action()".to_string()));
}

#[test]
fn parse_full_pipeline_table() {
    let lua = Lua::new();
    let table: Table = lua
        .load(
            r#"
        return {
            name = "ci",
            version = "2",
            env = { A = "1" },
            config = {
                timeout_seconds = 99,
                continue_on_error = true,
                parallel = { enabled = true, max_concurrent = 8, failure_strategy = "Critical_Only" },
            },
            steps = {
                { name = "build", action = function() end },
                {
                    name = "test",
                    depends_on = { "build" },
                    timeout = 30,
                    critical = true,
                    retry = {
                        max_attempts = 3,
                        exponential_backoff = true,
                        conditions = { "exit_code:2", { error_pattern = "flaky" }, 7 },
                    },
                },
            },
        }
    "#,
        )
        .eval()
        .unwrap();
    let p = PipelineParser::parse_pipeline_table(&LuaTable::new(table), &mut ReadLog::new()).unwrap();
    assert_eq!(p.version, Some("2".to_string()));
    assert_eq!(p.env.get("A"), Some(&"1".to_string()));
    assert_eq!(p.config.timeout_seconds, 99);
    assert!(p.config.continue_on_error);
    assert!(p.config.parallel.enabled);
    assert_eq!(p.config.parallel.max_concurrent, 8);
    assert!(matches!(p.config.parallel.failure_strategy, FailureStrategy::CriticalOnly));
    assert_eq!(p.config.parallel.dependency_timeout_seconds, 300);
    let test = &p.steps[1];
    assert_eq!(test.depends_on, vec!["build"]);
    assert_eq!(test.timeout_seconds, Some(30));
    assert!(test.critical);
    assert_eq!(test.action, None);
    assert_eq!(test.retry.max_attempts, 3);
    assert_eq!(test.retry.delay_seconds, 1);
    assert_eq!(test.retry.max_delay_seconds, 60);
    assert!(test.retry.exponential_backoff);
    assert_eq!(test.retry.retry_conditions.len(), 3);
    assert!(matches!(&test.retry.retry_conditions[0], RetryCondition::ExitCodes(c) if c == &vec![2]));
    assert!(matches!(&test.retry.retry_conditions[1], RetryCondition::ErrorPattern(s) if s == "flaky"));
    assert!(matches!(&test.retry.retry_conditions[2], RetryCondition::LuaCondition(s) if s == "7"));
}

#[test]
fn parse_pipeline_without_name_or_steps() {
    let lua = Lua::new();
    let t: Table = lua.load(r#"return { steps = {} }"#).eval().unwrap();
    match PipelineParser::parse_pipeline_table(&LuaTable::new(t), &mut ReadLog::new()) {
        Err(PipelineError::ParseError(m)) => assert_eq!(m, "Pipeline must have a 'name' field"),
        other => panic!("unexpected {:?}", other),
    }
    let t: Table = lua.load(r#"return { name = "x" }"#).eval().unwrap();
    match PipelineParser::parse_pipeline_table(&LuaTable::new(t), &mut ReadLog::new()) {
        Err(PipelineError::ParseError(m)) => assert_eq!(m, "Pipeline must have a 'steps' field"),
        other => panic!("unexpected {:?}", other),
    }
}

#[test]
fn parse_step_without_name_names_its_index() {
    let lua = Lua::new();
    let t: Table = lua
        .load(r#"return { name = "x", steps = { { name = "a" }, { description = "?" } } }"#)
        .eval()
        .unwrap();
    match PipelineParser::parse_pipeline_table(&LuaTable::new(t), &mut ReadLog::new()) {
        Err(PipelineError::ParseError(m)) => assert_eq!(m, "Step 2 must have a 'name' field"),
        other => panic!("unexpected {:?}", other),
    }
}

#[test]
fn parse_bad_retry_condition_table() {
    let lua = Lua::new();
    let t: Table = lua.load(r#"return { }"#).eval().unwrap();
    match PipelineParser::parse_retry_condition_table(&LuaTable::new(t), &mut ReadLog::new()) {
        Err(PipelineError::ParseError(m)) => assert_eq!(m, "Invalid retry condition table"),
        other => panic!("unexpected {:?}", other),
    }
    let t: Table = lua.load(r#"return { "exit_code:abc" }"#).eval().unwrap();
    match PipelineParser::parse_retry_conditions(&LuaTable::new(t), &mut ReadLog::new()) {
        Err(PipelineError::ParseError(m)) => assert_eq!(m, "Invalid exit code: abc"),
        other => panic!("unexpected {:?}", other),
    }
    let t: Table = lua.load(r#"return { }"#).eval().unwrap();
    let c = PipelineParser::parse_retry_conditions(&LuaTable::new(t), &mut ReadLog::new()).unwrap();
    assert!(matches!(c.as_slice(), [RetryCondition::AnyFailure]));
}

#[test]
fn parse_step_table_reads_each_field_under_its_key() {
    let lua = Lua::new();
    let t: Table = lua
        .load(r#"return { name = "deploy", description = "ship it", critical = true, timeout = 5 }"#)
        .eval()
        .unwrap();
    let step = PipelineParser::parse_step_table(&LuaTable::new(t), &mut ReadLog::new(), 1).unwrap();
    assert_eq!(step.name, "deploy");
    assert_eq!(step.description, Some("ship it".to_string()));
    assert!(step.critical);
    assert_eq!(step.timeout_seconds, Some(5));
    let t: Table = lua.load(r#"return { description = "nameless" }"#).eval().unwrap();
    match PipelineParser::parse_step_table(&LuaTable::new(t), &mut ReadLog::new(), 3) {
        Err(PipelineError::ParseError(m)) => assert_eq!(m, "Step 3 must have a 'name' field"),
        other => panic!("unexpected {:?}", other.map(|s| s.name)),
    }
}

#[test]
fn parse_config_parallel_and_retry_tables() {
    let lua = Lua::new();
    let t: Table = lua.load(r#"return { timeout_seconds = 7, verbose = true }"#).eval().unwrap();
    let c = PipelineParser::parse_config_table(&LuaTable::new(t), &mut ReadLog::new()).unwrap();
    assert_eq!(c.timeout_seconds, 7);
    assert!(c.verbose);
    let t: Table = lua.load(r#"return { enabled = true, max_concurrent = 3 }"#).eval().unwrap();
    let pc = PipelineParser::parse_parallel_table(&LuaTable::new(t), &mut ReadLog::new()).unwrap();
    assert!(pc.enabled);
    assert_eq!(pc.max_concurrent, 3);
    let t: Table = lua.load(r#"return { max_attempts = 4, delay_seconds = 9 }"#).eval().unwrap();
    let rc = PipelineParser::parse_retry_table(&LuaTable::new(t), &mut ReadLog::new()).unwrap();
    assert_eq!(rc.max_attempts, 4);
    assert_eq!(rc.delay_seconds, 9);
}
