use gaiaci::format::{
    DetailedFormatter, LogContext, LogFormatter, SimpleFormatter, TemplateFormatter, Timestamp,
};
use gaiaci::levels::LogLevel;

/// 2023-11-14T22:13:20.123Z.
const WHEN: Timestamp = Timestamp { seconds: 1_700_000_000, nanos: 123_000_000 };

fn context(level: LogLevel, message: &str) -> LogContext {
    LogContext::at(WHEN, level, message.to_string(), Some(4242), Some("ThreadId(1)".to_string()))
}

#[test]
fn test_simple_formatter() {
    let formatter = SimpleFormatter;
    let context = context(LogLevel::Info, "test message");
    let result = formatter.format(&context).unwrap();
    assert_eq!(result, "[INFO] test message");
}

#[test]
fn test_detailed_formatter() {
    let formatter = DetailedFormatter;
    let context = context(LogLevel::Warn, "warning message");
    let result = formatter.format(&context).unwrap();
    assert!(result.contains("[WARN] warning message"));
    assert!(result.contains("]"));
}

#[test]
fn test_template_formatter_basic() {
    let formatter = TemplateFormatter::new("[{level}] {message}");
    let context = context(LogLevel::Error, "error occurred");
    let result = formatter.format(&context).unwrap();
    assert_eq!(result, "[ERROR] error occurred");
}

#[test]
fn test_template_formatter_with_user() {
    let formatter = TemplateFormatter::new("[{user}] [{level}] {message}");
    let context = context(LogLevel::Info, "deploy started").with_user("ci-bot");
    let result = formatter.format(&context).unwrap();
    assert_eq!(result, "[ci-bot] [INFO] deploy started");
}

#[test]
fn test_template_formatter_custom_fields() {
    let formatter = TemplateFormatter::new("{level}: {message} (build: {field:build_id})");
    let context = context(LogLevel::Info, "build completed").with_field("build_id", "12345");
    let result = formatter.format(&context).unwrap();
    assert_eq!(result, "INFO: build completed (build: 12345)");
}

#[test]
fn test_json_formatter() {
    let formatter = TemplateFormatter::json_format();
    let context = context(LogLevel::Debug, "debug info").with_user("developer");
    let result = formatter.format(&context).unwrap();
    assert!(result.contains("\"level\":\"debug\""));
    assert!(result.contains("\"message\":\"debug info\""));
    assert!(result.contains("\"user\":\"developer\""));
    assert!(result.starts_with("{\"timestamp\":\""));
    assert!(result.ends_with(",\"pid\":4242}"));
    assert!(!result.contains("{{"));
}

#[test]
fn detailed_form_in_full() {
    let result = DetailedFormatter.format(&context(LogLevel::Warn, "disk low")).unwrap();
    assert_eq!(result, "[2023-11-14 22:13:20.123 UTC] [4242] [WARN] disk low");
    let anonymous = LogContext::at(WHEN, LogLevel::Info, "x".to_string(), None, None);
    assert_eq!(DetailedFormatter.format(&anonymous).unwrap(), "[2023-11-14 22:13:20.123 UTC] [0] [INFO] x");
}

#[test]
fn template_fills_every_placeholder() {
    let formatter = TemplateFormatter::new(
        "{timestamp} {level:lower} {pid} {thread} <{source}> {user} {field:a}{field:b}",
    );
    let ctx = context(LogLevel::Trace, "m").with_source("main.rs:7").with_field("a", "1").with_field("b", "2");
    assert_eq!(
        formatter.format(&ctx).unwrap(),
        "2023-11-14T22:13:20.123+00:00 trace 4242 ThreadId(1) <main.rs:7> unknown 12"
    );
    let bare = LogContext::at(WHEN, LogLevel::Info, "m".to_string(), None, None);
    assert_eq!(
        TemplateFormatter::new("{pid} {thread} <{source}> {field:none}").format(&bare).unwrap(),
        "0 unknown <> {field:none}"
    );
}

#[test]
fn template_timestamp_formats() {
    // The whole text after `{timestamp:` up to the closing brace is the format.
    let ctx = context(LogLevel::Info, "msg").with_user("ci-bot");
    assert_eq!(
        TemplateFormatter::ci_format().format(&ctx).unwrap(),
        "[2023-11-14 22:13:20] [ci-bot] [INFO] msg"
    );
    assert_eq!(
        TemplateFormatter::new("{timestamp:x%H:%M} {message}").format(&ctx).unwrap(),
        "x22:13 msg"
    );
    assert_eq!(
        TemplateFormatter::dev_format().format(&ctx).unwrap(),
        "[22:13:20] [ThreadId(1)] [INFO] msg"
    );
    assert_eq!(
        TemplateFormatter::new("[{timestamp:%H:%M:%S}] [{level}] {message}").format(&ctx).unwrap(),
        "[22:13:20] [INFO] msg"
    );
    // `{timestamp:}` has an empty format.
    assert_eq!(TemplateFormatter::new("<{timestamp:}>").format(&ctx), Some("<>".to_string()));
    // An instant chrono cannot hold.
    let far = LogContext::at(Timestamp { seconds: i64::MAX, nanos: 0 }, LogLevel::Info, "m".to_string(), None, None);
    assert_eq!(TemplateFormatter::new("{timestamp}").format(&far), None);
    assert_eq!(TemplateFormatter::new("{message}").format(&far), Some("m".to_string()));
}

use gaiaci::shell::build_shell_command;

#[test]
fn shell_test_build_shell_command_unix() {
    let cmd = "echo hello";
    let shell = "/bin/sh";
    let command = build_shell_command(cmd, shell, false);

    let program = &command.program;
    assert_eq!(program, "/bin/sh");
    assert_eq!(command.args, vec!["-c".to_string(), "echo hello".to_string()]);
}

#[test]
fn shell_test_build_shell_command_with_different_shells() {
    let cmd = "ls -la";

    let command1 = build_shell_command(cmd, "/bin/bash", false);
    assert_eq!(command1.program, "/bin/bash");

    let command2 = build_shell_command(cmd, "/bin/zsh", false);
    assert_eq!(command2.program, "/bin/zsh");

    let command3 = build_shell_command("dir", "cmd", true);
    assert_eq!(command3.args, vec!["/C".to_string(), "dir".to_string()]);
}
