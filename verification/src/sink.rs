//! Log sinks: where log lines go.
use vstd::prelude::*;
use std::io::Write;
use crate::levels::{level_upper_name, LogLevel};

verus! {

/// A destination for log messages.  Implementations must be shareable
/// between threads.
pub trait LogSink: Send + Sync + 'static {
    /// Outputs one message of the given severity.
    fn log(&self, level: LogLevel, msg: &str);
}

/// The line a simple sink writes for a message: `[LEVEL] message`.
pub open spec fn sink_line(level: LogLevel, msg: Seq<char>) -> Seq<char> {
    "["@ + level_upper_name(level) + "] "@ + msg
}

/// A sink that writes each message to standard output as `[LEVEL] message`.
pub struct StdoutSink;

impl StdoutSink {
    /// The line written for a message.
    pub fn line(&self, level: LogLevel, msg: &str) -> (r: String)
        ensures
            r@ == sink_line(level, msg@),
    {
        let mut s = "[".to_owned();
        s.append(level.as_str());
        s.append("] ");
        s.append(msg);
        s
    }
}

/// Writes a line and a newline to standard output through `std::io::Stdout`,
/// ignoring a failed write.  Nothing about the output is stated.
#[verifier::external_body]
fn write_stdout_line(line: &str) {
    let mut out = std::io::stdout();
    let _ = writeln!(out, "{}", line);
}

impl LogSink for StdoutSink {
    fn log(&self, level: LogLevel, msg: &str) {
        let line = self.line(level, msg);
        write_stdout_line(line.as_str());
    }
}

} // verus!
