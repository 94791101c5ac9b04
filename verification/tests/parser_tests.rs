use gaiaci::config::{FailureStrategy, RetryCondition};
use gaiaci::parser::{decimal_string, PipelineParser};
use gaiaci::step::{Pipeline, PipelineStep};

#[test]
fn test_parse_failure_strategy() {
    assert!(matches!(
        PipelineParser::parse_failure_strategy("fail_fast").unwrap(),
        FailureStrategy::FailFast
    ));

    assert!(matches!(
        PipelineParser::parse_failure_strategy("continue_on_failure").unwrap(),
        FailureStrategy::ContinueOnFailure
    ));

    if let FailureStrategy::Custom(custom) =
        PipelineParser::parse_failure_strategy("custom_strategy").unwrap()
    {
        assert_eq!(custom, "custom_strategy");
    } else {
        panic!("Expected custom failure strategy");
    }
}

#[test]
fn test_parse_retry_condition() {
    assert!(matches!(
        PipelineParser::parse_retry_condition("any_failure").unwrap(),
        RetryCondition::AnyFailure
    ));

    assert!(matches!(
        PipelineParser::parse_retry_condition("timeout").unwrap(),
        RetryCondition::Timeout
    ));

    if let RetryCondition::ExitCodes(codes) = PipelineParser::parse_retry_condition("exit_code:1").unwrap() {
        assert_eq!(codes, vec![1]);
    } else {
        panic!("Expected exit code condition");
    }

    if let RetryCondition::ErrorPattern(pattern) =
        PipelineParser::parse_retry_condition("error:connection failed").unwrap()
    {
        assert_eq!(pattern, "connection failed");
    } else {
        panic!("Expected error pattern condition");
    }
}

#[test]
fn test_validate_parsed_pipeline() {
    let mut valid_pipeline = Pipeline::new("test");
    valid_pipeline.add_step(PipelineStep::new("step1").with_action("action1"));
    assert!(PipelineParser::validate_parsed_pipeline(&valid_pipeline).is_ok());

    let empty_pipeline = Pipeline::new("empty");
    assert!(PipelineParser::validate_parsed_pipeline(&empty_pipeline).is_err());

    let mut duplicate_pipeline = Pipeline::new("dup");
    duplicate_pipeline.add_step(PipelineStep::new("step1").with_action("action1"));
    duplicate_pipeline.add_step(PipelineStep::new("step1").with_action("action2"));
    assert!(PipelineParser::validate_parsed_pipeline(&duplicate_pipeline).is_err());

    let mut invalid_dep_pipeline = Pipeline::new("invalid");
    invalid_dep_pipeline.add_step(
        PipelineStep::new("step1")
            .with_action("action1")
            .with_dependency("nonexistent"),
    );
    assert!(PipelineParser::validate_parsed_pipeline(&invalid_dep_pipeline).is_err());
}

#[test]
fn retry_condition_keywords_ignore_case() {
    assert!(matches!(PipelineParser::parse_retry_condition("ANY").unwrap(), RetryCondition::AnyFailure));
    assert!(matches!(PipelineParser::parse_retry_condition("TimeOut").unwrap(), RetryCondition::Timeout));
    match PipelineParser::parse_retry_condition("exit_code:-3").unwrap() {
        RetryCondition::ExitCodes(c) => assert_eq!(c, vec![-3]),
        _ => panic!("expected exit codes"),
    }
    match PipelineParser::parse_retry_condition("EXIT_CODE:1").unwrap() {
        RetryCondition::LuaCondition(c) => assert_eq!(c, "EXIT_CODE:1"),
        _ => panic!("prefixes are case-sensitive"),
    }
    match PipelineParser::parse_retry_condition("exit_code:x") {
        Err(gaiaci::error::PipelineError::ParseError(m)) => assert_eq!(m, "Invalid exit code: x"),
        _ => panic!("expected a parse error"),
    }
}

#[test]
fn failure_strategy_keywords_ignore_case() {
    assert!(matches!(
        PipelineParser::parse_failure_strategy("CRITICAL_ONLY").unwrap(),
        FailureStrategy::CriticalOnly
    ));
}

#[test]
fn parsed_pipeline_needs_actions() {
    let mut p = Pipeline::new("p");
    p.add_step(PipelineStep::new("a"));
    match PipelineParser::validate_parsed_pipeline(&p) {
        Err(gaiaci::error::PipelineError::ParseError(m)) => assert_eq!(m, "Step 'a' has no action defined"),
        _ => panic!("expected missing action"),
    }
}

#[test]
fn decimal_text() {
    assert_eq!(decimal_string(0), "0");
    assert_eq!(decimal_string(7), "7");
    assert_eq!(decimal_string(1204), "1204");
    assert_eq!(decimal_string(u64::MAX), u64::MAX.to_string());
}
