use gaiaci::levels::LogLevel;
use gaiaci::sink::{LogSink, StdoutSink};

#[test]
fn test_stdout_sink_basic() {
    let sink = StdoutSink;

    sink.log(LogLevel::Info, "Test message");
    sink.log(LogLevel::Error, "Error message");

    assert!(true);
}

#[test]
fn test_stdout_sink_implements_logsink() {
    let sink = StdoutSink;

    fn accepts_log_sink<T: LogSink>(_: T) {}
    accepts_log_sink(sink);
}

#[test]
fn test_stdout_sink_thread_safety() {
    fn assert_send<T: Send>() {}
    fn assert_sync<T: Sync>() {}

    assert_send::<StdoutSink>();
    assert_sync::<StdoutSink>();
}

#[test]
fn test_stdout_sink_with_different_levels() {
    let sink = StdoutSink;

    sink.log(LogLevel::Trace, "Trace message");
    sink.log(LogLevel::Debug, "Debug message");
    sink.log(LogLevel::Info, "Info message");
    sink.log(LogLevel::Warn, "Warn message");
    sink.log(LogLevel::Error, "Error message");

    assert!(true);
}

#[test]
fn test_stdout_sink_with_special_characters() {
    let sink = StdoutSink;

    sink.log(LogLevel::Info, "Message with unicode: 🦀 Rust!");
    sink.log(LogLevel::Info, "Message with newlines:\nLine 1\nLine 2");
    sink.log(LogLevel::Info, "Message with tabs:\tTabbed content");
    sink.log(LogLevel::Info, "Empty message: ");

    assert!(true);
}

#[test]
fn stdout_sink_line_format() {
    let sink = StdoutSink;
    assert_eq!(sink.line(LogLevel::Warn, "disk low"), "[WARN] disk low");
    assert_eq!(sink.line(LogLevel::Trace, ""), "[TRACE] ");
}
