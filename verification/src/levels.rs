//! Log severity levels, ordered from the most verbose (`Trace`) to the most
//! severe (`Error`).
use vstd::prelude::*;
use crate::text::{all_ascii, ascii_lower, str_eq, str_lowercase, to_lowercase_string};

verus! {

/// Severity of a log message.  A level includes every more severe level:
/// logging at `Info` also shows `Warn` and `Error`.
#[derive(Debug, Clone, Copy, PartialEq, Eq, Structural, PartialOrd, Ord, Hash)]
pub enum LogLevel {
    /// Fine-grained execution details.
    Trace,
    /// Information for debugging.
    Debug,
    /// Normal operation.
    Info,
    /// Potential problems.
    Warn,
    /// Problems that need attention.
    Error,
}

/// Position of a level in the severity order, 0 for `Trace` up to 4 for
/// `Error`.
pub open spec fn level_rank(l: LogLevel) -> int {
    match l {
        LogLevel::Trace => 0,
        LogLevel::Debug => 1,
        LogLevel::Info => 2,
        LogLevel::Warn => 3,
        LogLevel::Error => 4,
    }
}

/// Upper-case name of a level, as shown in log lines.
pub open spec fn level_upper_name(l: LogLevel) -> Seq<char> {
    match l {
        LogLevel::Trace => "TRACE"@,
        LogLevel::Debug => "DEBUG"@,
        LogLevel::Info => "INFO"@,
        LogLevel::Warn => "WARN"@,
        LogLevel::Error => "ERROR"@,
    }
}

/// Lower-case name of a level.
pub open spec fn level_lower_name(l: LogLevel) -> Seq<char> {
    match l {
        LogLevel::Trace => "trace"@,
        LogLevel::Debug => "debug"@,
        LogLevel::Info => "info"@,
        LogLevel::Warn => "warn"@,
        LogLevel::Error => "error"@,
    }
}

/// The level named by an already lower-cased text: a lower-case name, or
/// `warning` for `Warn`.
pub open spec fn level_named(s: Seq<char>) -> Option<LogLevel> {
    if s == "trace"@ {
        Some(LogLevel::Trace)
    } else if s == "debug"@ {
        Some(LogLevel::Debug)
    } else if s == "info"@ {
        Some(LogLevel::Info)
    } else if s == "warn"@ || s == "warning"@ {
        Some(LogLevel::Warn)
    } else if s == "error"@ {
        Some(LogLevel::Error)
    } else {
        None
    }
}

impl LogLevel {
    /// Position in the severity order, 0 for `Trace` up to 4 for `Error`.
    pub fn rank(&self) -> (r: u8)
        ensures
            r == level_rank(*self),
    {
        match self {
            LogLevel::Trace => 0,
            LogLevel::Debug => 1,
            LogLevel::Info => 2,
            LogLevel::Warn => 3,
            LogLevel::Error => 4,
        }
    }

    /// Whether this level is at least as severe as `other`.
    pub fn is_at_least(&self, other: LogLevel) -> (r: bool)
        ensures
            r == (level_rank(*self) >= level_rank(other)),
    {
        self.rank() >= other.rank()
    }

    /// The upper-case name of the level, as shown in log lines.
    pub fn as_str(&self) -> (r: &'static str)
        ensures
            r@ == level_upper_name(*self),
    {
        proof {
            reveal_strlit("TRACE");
            reveal_strlit("DEBUG");
            reveal_strlit("INFO");
            reveal_strlit("WARN");
            reveal_strlit("ERROR");
        }
        match self {
            LogLevel::Trace => "TRACE",
            LogLevel::Debug => "DEBUG",
            LogLevel::Info => "INFO",
            LogLevel::Warn => "WARN",
            LogLevel::Error => "ERROR",
        }
    }

    /// The lower-case name of the level.
    pub fn to_lowercase(&self) -> (r: &'static str)
        ensures
            r@ == level_lower_name(*self),
    {
        match self {
            LogLevel::Trace => "trace",
            LogLevel::Debug => "debug",
            LogLevel::Info => "info",
            LogLevel::Warn => "warn",
            LogLevel::Error => "error",
        }
    }

    /// The level named by an already lower-cased text (`warning` names
    /// `Warn`); `None` for any other text.
    pub fn from_lowercase(s: &str) -> (r: Option<LogLevel>)
        ensures
            r == level_named(s@),
    {
        if str_eq(s, "trace") {
            Some(LogLevel::Trace)
        } else if str_eq(s, "debug") {
            Some(LogLevel::Debug)
        } else if str_eq(s, "info") {
            Some(LogLevel::Info)
        } else if str_eq(s, "warn") || str_eq(s, "warning") {
            Some(LogLevel::Warn)
        } else if str_eq(s, "error") {
            Some(LogLevel::Error)
        } else {
            None
        }
    }

    /// Parses a level name, ignoring case; `None` when the text names no
    /// level.
    pub fn from_str(s: &str) -> (r: Option<LogLevel>)
        ensures
            r == level_named(str_lowercase(s@)),
            all_ascii(s@) ==> r == level_named(ascii_lower(s@)),
    {
        let lower = to_lowercase_string(s);
        Self::from_lowercase(lower.as_str())
    }
}


/// Law: the lower-case name of a level is read back as that level.
pub proof fn law_level_name_round_trip(l: LogLevel)
    ensures
        level_named(level_lower_name(l)) == Some(l),
{
    reveal_strlit("trace");
    reveal_strlit("debug");
    reveal_strlit("info");
    reveal_strlit("warn");
    reveal_strlit("warning");
    reveal_strlit("error");
    // The names differ in their first letters.
    assert("debug"@[0] != "trace"@[0]);
    assert("info"@[0] != "trace"@[0] && "info"@[0] != "debug"@[0]);
    assert("warn"@[0] != "trace"@[0] && "warn"@[0] != "debug"@[0] && "warn"@[0] != "info"@[0]);
    assert("error"@[0] != "trace"@[0] && "error"@[0] != "debug"@[0] && "error"@[0] != "info"@[0]);
    assert("error"@[0] != "warn"@[0] && "error"@[0] != "warning"@[0]);
    assert("debug"@ != "trace"@);
    assert("info"@ != "trace"@ && "info"@ != "debug"@);
    assert("warn"@ != "trace"@ && "warn"@ != "debug"@ && "warn"@ != "info"@);
    assert("error"@ != "trace"@ && "error"@ != "debug"@ && "error"@ != "info"@);
    assert("error"@ != "warn"@ && "error"@ != "warning"@);
}

/// Law: parsing, with case ignored, the lower-case name of a level or the
/// name it is displayed with gives the level back (both names are ASCII, so
/// `from_str` reads them through ASCII lower case).
pub proof fn law_level_text_parses_back(l: LogLevel)
    ensures
        all_ascii(level_lower_name(l)),
        all_ascii(level_upper_name(l)),
        level_named(ascii_lower(level_lower_name(l))) == Some(l),
        level_named(ascii_lower(level_upper_name(l))) == Some(l),
{
    reveal_strlit("TRACE");
    reveal_strlit("DEBUG");
    reveal_strlit("INFO");
    reveal_strlit("WARN");
    reveal_strlit("ERROR");
    reveal_strlit("trace");
    reveal_strlit("debug");
    reveal_strlit("info");
    reveal_strlit("warn");
    reveal_strlit("error");
    law_level_name_round_trip(l);
    assert(ascii_lower(level_lower_name(l)) =~= level_lower_name(l));
    assert(ascii_lower(level_upper_name(l)) =~= level_lower_name(l));
}

/// Law: severity orders the levels totally: any two levels compare, the
/// order is transitive, and distinct levels differ in severity.
pub proof fn law_severity_is_a_total_order(a: LogLevel, b: LogLevel, c: LogLevel)
    ensures
        level_rank(a) >= level_rank(b) || level_rank(b) >= level_rank(a),
        level_rank(a) >= level_rank(b) && level_rank(b) >= level_rank(c) ==> level_rank(a) >= level_rank(c),
        level_rank(a) == level_rank(b) ==> a == b,
{
}

} // verus!
