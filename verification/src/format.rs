//! Formatting of log records: a plain `[LEVEL] message` form, a detailed
//! form with timestamp and process id, and templates with placeholders.
use vstd::prelude::*;
use std::fmt::Write;
use crate::error::{concat2, concat3, concat5};
use crate::levels::{level_lower_name, level_upper_name, LogLevel};
use crate::parser::{decimal, decimal_string};
use crate::strmap::StrMap;
use crate::text::{matches_at, occurs_at, replace_all, replace_str, seq_contains, str_contains};

verus! {

/// An instant in UTC: seconds since the Unix epoch and nanoseconds.
#[derive(Debug, Clone, Copy, PartialEq, Eq, Structural)]
pub struct Timestamp {
    /// Whole seconds since 1970-01-01T00:00:00Z.
    pub seconds: i64,
    /// Nanoseconds within the second.
    pub nanos: u32,
}

/// The RFC 3339 text chrono writes for an instant, `None` when chrono
/// cannot represent it.
pub uninterp spec fn chrono_rfc3339(seconds: i64, nanos: u32) -> Option<Seq<char>>;

/// The text chrono writes for an instant with a strftime-style format,
/// `None` when chrono cannot represent the instant or refuses the format.
pub uninterp spec fn chrono_strftime(seconds: i64, nanos: u32, format: Seq<char>) -> Option<Seq<char>>;

/// `DateTime::<Utc>::from_timestamp` followed by `to_rfc3339`.
#[verifier::external_body]
fn rfc3339_text(seconds: i64, nanos: u32) -> (r: Option<String>)
    ensures
        match r {
            Some(s) => chrono_rfc3339(seconds, nanos) == Some(s@),
            None => chrono_rfc3339(seconds, nanos) is None,
        },
{
    match chrono::DateTime::from_timestamp(seconds, nanos) {
        Some(t) => Some(t.to_rfc3339()),
        None => None,
    }
}

/// `DateTime::<Utc>::from_timestamp` followed by `format(format)`, written
/// out; `None` when the instant is out of range or writing fails.
#[verifier::external_body]
fn strftime_text(seconds: i64, nanos: u32, format: &str) -> (r: Option<String>)
    ensures
        match r {
            Some(s) => chrono_strftime(seconds, nanos, format@) == Some(s@),
            None => chrono_strftime(seconds, nanos, format@) is None,
        },
{
    match chrono::DateTime::from_timestamp(seconds, nanos) {
        Some(t) => {
            let mut out = String::new();
            match write!(out, "{}", t.format(format)) {
                Ok(()) => Some(out),
                Err(_) => None,
            }
        },
        None => None,
    }
}

/// What a log record carries for formatting.
#[derive(Debug)]
pub struct LogContext {
    /// When the record was made.
    pub timestamp: Timestamp,
    /// Its level.
    pub level: LogLevel,
    /// Its message.
    pub message: String,
    /// The user, if known.
    pub user: Option<String>,
    /// The process id, if known.
    pub process_id: Option<u32>,
    /// The thread, if known.
    pub thread_id: Option<String>,
    /// The source location, if known.
    pub source: Option<String>,
    /// Further named fields.
    pub custom_fields: StrMap<String>,
}

impl LogContext {
    /// A record made at `timestamp` by process `process_id` on thread
    /// `thread_id`, with no user, source or fields.
    pub fn at(
        timestamp: Timestamp,
        level: LogLevel,
        message: String,
        process_id: Option<u32>,
        thread_id: Option<String>,
    ) -> (r: Self)
        ensures
            r.timestamp == timestamp,
            r.level == level,
            r.message == message,
            r.user is None,
            r.process_id == process_id,
            r.thread_id == thread_id,
            r.source is None,
            r.custom_fields@ == Map::<Seq<char>, String>::empty(),
            r.custom_fields.key_order().len() == 0,
    {
        LogContext {
            timestamp,
            level,
            message,
            user: None,
            process_id,
            thread_id,
            source: None,
            custom_fields: StrMap::new(),
        }
    }

    /// The record with user `user`.
    pub fn with_user(self, user: &str) -> (r: Self)
        ensures
            r.user matches Some(u) && u@ == user@,
            r.timestamp == self.timestamp && r.level == self.level && r.message == self.message,
            r.process_id == self.process_id && r.thread_id == self.thread_id && r.source == self.source,
            r.custom_fields == self.custom_fields,
    {
        let mut c = self;
        c.user = Some(user.to_owned());
        c
    }

    /// The record with source location `source`.
    pub fn with_source(self, source: &str) -> (r: Self)
        ensures
            r.source matches Some(s) && s@ == source@,
            r.timestamp == self.timestamp && r.level == self.level && r.message == self.message,
            r.process_id == self.process_id && r.thread_id == self.thread_id && r.user == self.user,
            r.custom_fields == self.custom_fields,
    {
        let mut c = self;
        c.source = Some(source.to_owned());
        c
    }

    /// The record with field `key` set to `value`.
    pub fn with_field(self, key: &str, value: &str) -> (r: Self)
        ensures
            r.custom_fields@ == self.custom_fields@.insert(key@, r.custom_fields@[key@]),
            r.custom_fields@[key@]@ == value@,
            r.timestamp == self.timestamp && r.level == self.level && r.message == self.message,
            r.process_id == self.process_id && r.thread_id == self.thread_id && r.user == self.user,
            r.source == self.source,
    {
        let mut c = self;
        c.custom_fields.insert(key.to_owned(), value.to_owned());
        c
    }
}

/// Turns log records into text.
pub trait LogFormatter {
    /// The text of `context`, or `None` when it cannot be written.
    fn format(&self, context: &LogContext) -> Option<String>;
}

/// `[LEVEL] message`.
pub open spec fn simple_text(ctx: LogContext) -> Seq<char> {
    "["@ + level_upper_name(ctx.level) + "] "@ + ctx.message@
}

/// Writes records as `[LEVEL] message`.
#[derive(Debug, Clone, Copy)]
pub struct SimpleFormatter;

impl SimpleFormatter {
    /// `[LEVEL] message`.
    pub fn format_record(&self, context: &LogContext) -> (r: String)
        ensures
            r@ == simple_text(*context),
    {
        let head = concat3("[", context.level.as_str(), "] ");
        concat2(head.as_str(), context.message.as_str())
    }
}


/// The format of the detailed form's timestamps.
pub open spec fn detailed_time_format() -> Seq<char> {
    "%Y-%m-%d %H:%M:%S%.3f UTC"@
}

/// A process id, 0 when unknown.
pub open spec fn pid_or_zero(p: Option<u32>) -> nat {
    match p {
        Some(x) => x as nat,
        None => 0,
    }
}

/// `[timestamp] [pid] [LEVEL] message`, `None` when chrono cannot write the
/// timestamp.
pub open spec fn detailed_text(ctx: LogContext) -> Option<Seq<char>> {
    match chrono_strftime(ctx.timestamp.seconds, ctx.timestamp.nanos, detailed_time_format()) {
        Some(t) => Some(
            "["@ + t + "] ["@ + decimal(pid_or_zero(ctx.process_id)) + "] ["@ + level_upper_name(ctx.level)
                + "] "@ + ctx.message@,
        ),
        None => None,
    }
}

/// Writes records as `[timestamp] [pid] [LEVEL] message`.
#[derive(Debug, Clone, Copy)]
pub struct DetailedFormatter;

impl DetailedFormatter {
    /// `[timestamp] [pid] [LEVEL] message`, the timestamp written
    /// `%Y-%m-%d %H:%M:%S%.3f UTC` and the pid 0 when unknown.
    pub fn format_record(&self, context: &LogContext) -> (r: Option<String>)
        ensures
            match detailed_text(*context) {
                Some(t) => r matches Some(s) && s@ == t,
                None => r is None,
            },
    {
        let fmt = "%Y-%m-%d %H:%M:%S%.3f UTC";
        assert(fmt@ == detailed_time_format());
        let t = match strftime_text(context.timestamp.seconds, context.timestamp.nanos, fmt) {
            Some(t) => t,
            None => {
                return None;
            },
        };
        let pid = match context.process_id {
            Some(p) => p as u64,
            None => 0,
        };
        let pid_text = decimal_string(pid);
        let a = concat5("[", t.as_str(), "] [", pid_text.as_str(), "] [");
        let b = concat3(a.as_str(), context.level.as_str(), "] ");
        Some(concat2(b.as_str(), context.message.as_str()))
    }
}

/// First position at or after `i` where `p` occurs in `s`.
pub open spec fn first_from(s: Seq<char>, p: Seq<char>, i: int) -> Option<int>
    decreases s.len() + 1 - i,
{
    if i < 0 || i + p.len() > s.len() {
        None
    } else if occurs_at(s, p, i) {
        Some(i)
    } else {
        first_from(s, p, i + 1)
    }
}

/// First position at or after `i` where `p` occurs in `s`.
pub fn find_from(s: &str, p: &str, i: usize) -> (r: Option<usize>)
    requires
        p@.len() > 0,
    ensures
        match r {
            Some(k) => first_from(s@, p@, i as int) == Some(k as int),
            None => first_from(s@, p@, i as int) is None,
        },
{
    let n = s.unicode_len();
    let m = p.unicode_len();
    let mut k = i;
    while k <= n && m <= n - k
        invariant
            n == s@.len(),
            m == p@.len(),
            m > 0,
            i <= k,
            first_from(s@, p@, i as int) == first_from(s@, p@, k as int),
        decreases n + 1 - k,
    {
        if matches_at(s, p, k) {
            return Some(k);
        }
        k = k + 1;
    }
    None
}

/// The text or a default.
pub open spec fn text_or(o: Option<String>, d: Seq<char>) -> Seq<char> {
    match o {
        Some(s) => s@,
        None => d,
    }
}

/// The template with its `{timestamp}` and first `{timestamp:FORMAT}`
/// placeholders filled for the instant `(seconds, nanos)`.  The format is
/// all that stands between `{timestamp:` and the placeholder's closing
/// brace.  `None` when chrono cannot write a needed text.
pub open spec fn fill_timestamps(template: Seq<char>, seconds: i64, nanos: u32) -> Option<Seq<char>> {
    let first = if seq_contains(template, "{timestamp}"@) {
        match chrono_rfc3339(seconds, nanos) {
            Some(t) => Some(replace_all(template, "{timestamp}"@, t)),
            None => None,
        }
    } else {
        Some(template)
    };
    match first {
        None => None,
        Some(s) => match first_from(s, "{timestamp:"@, 0) {
            None => Some(s),
            Some(start) => match first_from(s, "}"@, start) {
                None => Some(s),
                Some(end) => {
                    let ph = s.subrange(start, end + 1);
                    match chrono_strftime(seconds, nanos, ph.subrange(11, ph.len() - 1)) {
                        Some(t) => Some(replace_all(s, ph, t)),
                        None => None,
                    }
                },
            },
        },
    }
}

/// The text with the first `i` custom fields of `fields` filled in.
pub open spec fn fill_fields(s: Seq<char>, fields: StrMap<String>, i: int) -> Seq<char>
    decreases i,
{
    if i <= 0 {
        s
    } else {
        replace_all(
            fill_fields(s, fields, i - 1),
            "{field:"@ + fields.key_order()[i - 1] + "}"@,
            fields.value_order(i - 1)@,
        )
    }
}

/// The text with the record's placeholders filled: level (upper and lower
/// case), message, user (`unknown`), pid (0), thread (`unknown`), source
/// (empty) and custom fields.
pub open spec fn fill_context(s: Seq<char>, ctx: LogContext) -> Seq<char> {
    let s1 = replace_all(s, "{level}"@, level_upper_name(ctx.level));
    let s2 = replace_all(s1, "{level:lower}"@, level_lower_name(ctx.level));
    let s3 = replace_all(s2, "{message}"@, ctx.message@);
    let s4 = replace_all(s3, "{user}"@, text_or(ctx.user, "unknown"@));
    let s5 = replace_all(s4, "{pid}"@, decimal(pid_or_zero(ctx.process_id)));
    let s6 = replace_all(s5, "{thread}"@, text_or(ctx.thread_id, "unknown"@));
    let s7 = replace_all(s6, "{source}"@, text_or(ctx.source, ""@));
    fill_fields(s7, ctx.custom_fields, ctx.custom_fields.key_order().len() as int)
}

/// The text of a record under a template.
pub open spec fn render_template(template: Seq<char>, ctx: LogContext) -> Option<Seq<char>> {
    match fill_timestamps(template, ctx.timestamp.seconds, ctx.timestamp.nanos) {
        Some(s) => Some(fill_context(s, ctx)),
        None => None,
    }
}


proof fn lemma_first_from(s: Seq<char>, p: Seq<char>, i: int)
    ensures
        first_from(s, p, i) matches Some(k) ==> i <= k && occurs_at(s, p, k),
    decreases s.len() + 1 - i,
{
    if !(i < 0 || i + p.len() > s.len()) && !occurs_at(s, p, i) {
        lemma_first_from(s, p, i + 1);
    }
}

/// Writes records through a template with placeholders: `{timestamp}`,
/// `{timestamp:FORMAT}`, `{level}`, `{level:lower}`, `{message}`, `{user}`,
/// `{pid}`, `{thread}`, `{source}` and `{field:NAME}`.
#[derive(Debug, Clone)]
pub struct TemplateFormatter {
    template: String,
}

impl TemplateFormatter {
    /// The template.
    pub closed spec fn template_text(&self) -> Seq<char> {
        self.template@
    }

    /// A formatter with template `template`.
    pub fn new(template: &str) -> (r: Self)
        ensures
            r.template_text() == template@,
    {
        TemplateFormatter { template: template.to_owned() }
    }

    /// The CI form: `[date time] [user] [LEVEL] message`.
    pub fn ci_format() -> (r: Self)
        ensures
            r.template_text() == "[{timestamp:%Y-%m-%d %H:%M:%S}] [{user}] [{level}] {message}"@,
    {
        Self::new("[{timestamp:%Y-%m-%d %H:%M:%S}] [{user}] [{level}] {message}")
    }

    /// A JSON-like form with timestamp, level, message, user and pid.
    pub fn json_format() -> (r: Self)
        ensures
            r.template_text()
                == "{\"timestamp\":\"{timestamp}\",\"level\":\"{level:lower}\",\"message\":\"{message}\",\"user\":\"{user}\",\"pid\":{pid}}"@,
    {
        Self::new(
            "{\"timestamp\":\"{timestamp}\",\"level\":\"{level:lower}\",\"message\":\"{message}\",\"user\":\"{user}\",\"pid\":{pid}}",
        )
    }

    /// The development form: `[time] [thread] [LEVEL] message`.
    pub fn dev_format() -> (r: Self)
        ensures
            r.template_text() == "[{timestamp:%H:%M:%S}] [{thread}] [{level}] {message}"@,
    {
        Self::new("[{timestamp:%H:%M:%S}] [{thread}] [{level}] {message}")
    }

    /// The template with the timestamp placeholders filled.
    fn fill_time(&self, seconds: i64, nanos: u32) -> (r: Option<String>)
        ensures
            match fill_timestamps(self.template@, seconds, nanos) {
                Some(t) => r matches Some(s) && s@ == t,
                None => r is None,
            },
    {
        proof {
            reveal_strlit("{timestamp}");
            reveal_strlit("{timestamp:");
            reveal_strlit("}");
        }
        let tpl = self.template.as_str();
        let first: String = if str_contains(tpl, "{timestamp}") {
            match rfc3339_text(seconds, nanos) {
                Some(t) => replace_str(tpl, "{timestamp}", t.as_str()),
                None => {
                    return None;
                },
            }
        } else {
            tpl.to_owned()
        };
        let start = match find_from(first.as_str(), "{timestamp:", 0) {
            Some(k) => k,
            None => {
                return Some(first);
            },
        };
        proof {
            lemma_first_from(first@, "{timestamp:"@, 0);
        }
        let end = match find_from(first.as_str(), "}", start) {
            Some(k) => k,
            None => {
                return Some(first);
            },
        };
        proof {
            lemma_first_from(first@, "}"@, start as int);
        }
        let total = first.as_str().unicode_len();
        let ph = first.as_str().substring_char(start, end + 1);
        let n = ph.unicode_len();
        proof {
            let key = "{timestamp:"@;
            if end < start + 11 {
                assert(first@[end as int] == key[end - start]);
                assert(first@.subrange(end as int, end + 1)[0] == "}"@[0]);
            }
        }
        let fmt = ph.substring_char(11, n - 1);
        match strftime_text(seconds, nanos, fmt) {
            Some(t) => Some(replace_str(first.as_str(), ph, t.as_str())),
            None => None,
        }
    }

    /// The text of a record: the timestamp placeholders first, then the
    /// level, message, user, pid, thread, source and custom fields.  `None`
    /// when a timestamp cannot be written (see `fill_timestamps`).
    pub fn format_record(&self, context: &LogContext) -> (r: Option<String>)
        ensures
            match render_template(self.template_text(), *context) {
                Some(t) => r matches Some(s) && s@ == t,
                None => r is None,
            },
    {
        proof {
            reveal_strlit("{level}");
            reveal_strlit("{level:lower}");
            reveal_strlit("{message}");
            reveal_strlit("{user}");
            reveal_strlit("{pid}");
            reveal_strlit("{thread}");
            reveal_strlit("{source}");
            reveal_strlit("{field:");
            reveal_strlit("}");
        }
        let filled = match self.fill_time(context.timestamp.seconds, context.timestamp.nanos) {
            Some(s) => s,
            None => {
                return None;
            },
        };
        let s1 = replace_str(filled.as_str(), "{level}", context.level.as_str());
        let s2 = replace_str(s1.as_str(), "{level:lower}", context.level.to_lowercase());
        let s3 = replace_str(s2.as_str(), "{message}", context.message.as_str());
        let user = match &context.user {
            Some(u) => u.as_str(),
            None => "unknown",
        };
        let s4 = replace_str(s3.as_str(), "{user}", user);
        let pid = match context.process_id {
            Some(p) => p as u64,
            None => 0,
        };
        let pid_text = decimal_string(pid);
        let s5 = replace_str(s4.as_str(), "{pid}", pid_text.as_str());
        let thread = match &context.thread_id {
            Some(t) => t.as_str(),
            None => "unknown",
        };
        let s6 = replace_str(s5.as_str(), "{thread}", thread);
        let source = match &context.source {
            Some(t) => t.as_str(),
            None => "",
        };
        let s7 = replace_str(s6.as_str(), "{source}", source);
        let fields = &context.custom_fields;
        let ghost base = s7@;
        let mut out = s7;
        let mut i: usize = 0;
        let count = fields.len();
        while i < count
            invariant
                count == fields.key_order().len(),
                i <= count,
                out@ == fill_fields(base, *fields, i as int),
            decreases count - i,
        {
            proof {
                reveal_strlit("{field:");
                reveal_strlit("}");
            }
            let key = fields.key_at(i);
            let placeholder = concat3("{field:", key.as_str(), "}");
            let value = fields.value_at(i);
            out = replace_str(out.as_str(), placeholder.as_str(), value.as_str());
            i = i + 1;
        }
        Some(out)
    }
}


impl LogFormatter for SimpleFormatter {
    fn format(&self, context: &LogContext) -> (r: Option<String>)
        ensures
            r matches Some(s) && s@ == simple_text(*context),
    {
        Some(self.format_record(context))
    }
}

impl LogFormatter for DetailedFormatter {
    fn format(&self, context: &LogContext) -> (r: Option<String>)
        ensures
            match detailed_text(*context) {
                Some(t) => r matches Some(s) && s@ == t,
                None => r is None,
            },
    {
        self.format_record(context)
    }
}

impl LogFormatter for TemplateFormatter {
    fn format(&self, context: &LogContext) -> (r: Option<String>)
        ensures
            match render_template(self.template_text(), *context) {
                Some(t) => r matches Some(s) && s@ == t,
                None => r is None,
            },
    {
        self.format_record(context)
    }
}

} // verus!
