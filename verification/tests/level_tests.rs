use gaiaci::levels::LogLevel;

#[test]
fn test_log_level_display() {
    assert_eq!(LogLevel::Trace.as_str(), "TRACE");
    assert_eq!(LogLevel::Debug.as_str(), "DEBUG");
    assert_eq!(LogLevel::Info.as_str(), "INFO");
    assert_eq!(LogLevel::Warn.as_str(), "WARN");
    assert_eq!(LogLevel::Error.as_str(), "ERROR");
}

#[test]
fn test_log_level_ordering() {
    assert!(LogLevel::Error > LogLevel::Warn);
    assert!(LogLevel::Warn > LogLevel::Info);
    assert!(LogLevel::Info > LogLevel::Debug);
    assert!(LogLevel::Debug > LogLevel::Trace);

    assert_eq!(LogLevel::Info, LogLevel::Info);
}

#[test]
fn test_log_level_is_at_least() {
    assert!(LogLevel::Error.is_at_least(LogLevel::Warn));
    assert!(LogLevel::Error.is_at_least(LogLevel::Error));
    assert!(!LogLevel::Debug.is_at_least(LogLevel::Info));
    assert!(LogLevel::Info.is_at_least(LogLevel::Trace));
}

#[test]
fn test_log_level_to_lowercase() {
    assert_eq!(LogLevel::Trace.to_lowercase(), "trace");
    assert_eq!(LogLevel::Debug.to_lowercase(), "debug");
    assert_eq!(LogLevel::Info.to_lowercase(), "info");
    assert_eq!(LogLevel::Warn.to_lowercase(), "warn");
    assert_eq!(LogLevel::Error.to_lowercase(), "error");
}

#[test]
fn test_log_level_from_str() {
    assert_eq!(LogLevel::from_str("trace"), Some(LogLevel::Trace));
    assert_eq!(LogLevel::from_str("TRACE"), Some(LogLevel::Trace));
    assert_eq!(LogLevel::from_str("Debug"), Some(LogLevel::Debug));
    assert_eq!(LogLevel::from_str("info"), Some(LogLevel::Info));
    assert_eq!(LogLevel::from_str("WARN"), Some(LogLevel::Warn));
    assert_eq!(LogLevel::from_str("warning"), Some(LogLevel::Warn));
    assert_eq!(LogLevel::from_str("Error"), Some(LogLevel::Error));

    assert_eq!(LogLevel::from_str("invalid"), None);
    assert_eq!(LogLevel::from_str(""), None);
    assert_eq!(LogLevel::from_str("fatal"), None);
}

#[test]
fn test_log_level_clone_copy() {
    let level = LogLevel::Info;
    let cloned = level.clone();
    let copied = level;

    assert_eq!(level, cloned);
    assert_eq!(level, copied);
    assert_eq!(cloned, copied);
}

#[test]
fn level_rank_follows_severity() {
    let all = [LogLevel::Trace, LogLevel::Debug, LogLevel::Info, LogLevel::Warn, LogLevel::Error];
    for (i, a) in all.iter().enumerate() {
        assert_eq!(a.rank() as usize, i);
        for b in all.iter() {
            assert_eq!(a.is_at_least(*b), a >= b);
        }
    }
}

#[test]
fn from_lowercase_takes_lower_case_names_only() {
    assert_eq!(LogLevel::from_lowercase("warning"), Some(LogLevel::Warn));
    assert_eq!(LogLevel::from_lowercase("WARN"), None);
}
