//! Pipeline definitions as read from Lua tables: the field values that a
//! definition holds, and how they make up steps, configurations and
//! pipelines.  A field is `None` when the table lacks it or holds a value of
//! another type; defaults apply then.
use vstd::prelude::*;
use crate::config::{
    FailureStrategy, ParallelConfig, PipelineConfig, RetryCondition, RetryConfig,
    DEFAULT_DEPENDENCY_TIMEOUT_SECONDS, DEFAULT_MAX_PARALLEL, DEFAULT_MAX_RETRY_DELAY_SECONDS,
    DEFAULT_RETRY_DELAY_SECONDS, DEFAULT_TIMEOUT_SECONDS,
};
use crate::error::{is_parse_error, PipelineError};
use crate::parser::{decimal, decimal_string, failure_strategy_parsed, retry_condition_parsed, PipelineParser};
use crate::step::{Pipeline, PipelineStep};
use crate::strmap::{pairs_map, StrMap};
use crate::text::{parse_i32_spec, seq_starts_with, str_lowercase};

verus! {

/// The value of an optional field, or its default.
pub open spec fn or_default<T>(o: Option<T>, d: T) -> T {
    match o {
        Some(x) => x,
        None => d,
    }
}

/// The map of an optional list of pairs (empty when absent).
pub open spec fn pairs_or_empty(o: Option<Vec<(String, String)>>) -> Map<Seq<char>, String> {
    match o {
        Some(p) => pairs_map(p@),
        None => Map::empty(),
    }
}

/// An entry of a retry `conditions` list.
pub enum ConditionEntry {
    /// A condition written as text.
    Text(String),
    /// A condition written as a table, with the fields that could be read.
    Table { exit_codes: Option<Vec<i32>>, error_pattern: Option<String>, lua_condition: Option<String> },
    /// Anything else; it is ignored.
    Other,
}

/// Retry settings as read from a `retry` table.
pub struct RetryFields {
    /// `max_attempts`.
    pub max_attempts: Option<u32>,
    /// `delay_seconds`.
    pub delay_seconds: Option<u64>,
    /// `exponential_backoff`.
    pub exponential_backoff: Option<bool>,
    /// `max_delay_seconds`.
    pub max_delay_seconds: Option<u64>,
    /// The `conditions` list: absent, a failure to read its length, or its
    /// entries.
    pub conditions: Option<Result<Vec<ConditionEntry>, mlua::Error>>,
}

/// Parallel settings as read from a `parallel` table.
pub struct ParallelFields {
    /// `enabled`.
    pub enabled: Option<bool>,
    /// `max_concurrent`.
    pub max_concurrent: Option<usize>,
    /// `dependency_timeout_seconds`.
    pub dependency_timeout_seconds: Option<u64>,
    /// `failure_strategy`.
    pub failure_strategy: Option<String>,
}

/// Pipeline settings as read from a `config` table.
pub struct ConfigFields {
    /// `timeout_seconds`.
    pub timeout_seconds: Option<u64>,
    /// `continue_on_error`.
    pub continue_on_error: Option<bool>,
    /// `working_directory`.
    pub working_directory: Option<String>,
    /// `global_env`, as key/value pairs.
    pub global_env: Option<Vec<(String, String)>>,
    /// `max_memory_bytes`.
    pub max_memory_bytes: Option<u64>,
    /// `verbose`.
    pub verbose: Option<bool>,
    /// The `parallel` table, when present.
    pub parallel: Option<ParallelFields>,
}

/// A step as read from a step table.
pub struct StepFields {
    /// `name`.
    pub name: Option<String>,
    /// `description`.
    pub description: Option<String>,
    /// `condition`.
    pub condition: Option<String>,
    /// `env`, as key/value pairs.
    pub env: Option<Vec<(String, String)>>,
    /// `parallel`.
    pub parallel: Option<bool>,
    /// `depends_on`.
    pub depends_on: Option<Vec<String>>,
    /// `critical`.
    pub critical: Option<bool>,
    /// `timeout`, in seconds.
    pub timeout: Option<u64>,
    /// `working_directory`.
    pub working_directory: Option<String>,
    /// `metadata`, as key/value pairs.
    pub metadata: Option<Vec<(String, String)>>,
    /// The `retry` table, when present.
    pub retry: Option<RetryFields>,
    /// Whether `action` holds a function.
    pub has_action: bool,
}

/// A pipeline as read from a pipeline table.
pub struct PipelineFields {
    /// `name`.
    pub name: Option<String>,
    /// `description`.
    pub description: Option<String>,
    /// `version`.
    pub version: Option<String>,
    /// `env`, as key/value pairs.
    pub env: Option<Vec<(String, String)>>,
    /// `metadata`, as key/value pairs.
    pub metadata: Option<Vec<(String, String)>>,
    /// The `config` table, when present.
    pub config: Option<ConfigFields>,
    /// The `steps` list: absent, a failure to read its length, or its
    /// entries in order, ending early at the first one that could not be
    /// read as a table.
    pub steps: Option<Result<Vec<Result<StepFields, mlua::Error>>, mlua::Error>>,
}

/// The condition given by a condition table: `exit_codes`, else
/// `error_pattern`, else `lua_condition`; an error when none is there.
pub open spec fn condition_table_built(
    exit_codes: Option<Vec<i32>>,
    error_pattern: Option<String>,
    lua_condition: Option<String>,
    r: Result<RetryCondition, PipelineError>,
) -> bool {
    match exit_codes {
        Some(v) => r == Ok::<RetryCondition, PipelineError>(RetryCondition::ExitCodes(v)),
        None => match error_pattern {
            Some(p) => r == Ok::<RetryCondition, PipelineError>(RetryCondition::ErrorPattern(p)),
            None => match lua_condition {
                Some(l) => r == Ok::<RetryCondition, PipelineError>(RetryCondition::LuaCondition(l)),
                None => r matches Err(e) && is_parse_error(e, "Invalid retry condition table"@),
            },
        },
    }
}

/// Whether the text condition `s` is refused: an `exit_code:` prefix followed
/// by something that is not an `i32`.
pub open spec fn text_condition_fails(s: Seq<char>) -> bool {
    let lower = str_lowercase(s);
    &&& !(lower == "any"@ || lower == "any_failure"@ || lower == "timeout"@)
    &&& seq_starts_with(s, "exit_code:"@)
    &&& parse_i32_spec(s.subrange(10, s.len() as int)) is None
}

/// Whether a condition entry is refused.
pub open spec fn entry_fails(e: ConditionEntry) -> bool {
    match e {
        ConditionEntry::Text(s) => text_condition_fails(s@),
        ConditionEntry::Table { exit_codes, error_pattern, lua_condition } => exit_codes is None
            && error_pattern is None && lua_condition is None,
        ConditionEntry::Other => false,
    }
}

/// What a condition entry gives.
pub open spec fn entry_result(e: ConditionEntry, r: Result<RetryCondition, PipelineError>) -> bool {
    match e {
        ConditionEntry::Text(s) => retry_condition_parsed(s@, str_lowercase(s@), r),
        ConditionEntry::Table { exit_codes, error_pattern, lua_condition } => condition_table_built(
            exit_codes,
            error_pattern,
            lua_condition,
            r,
        ),
        ConditionEntry::Other => false,
    }
}

/// The entries that are not ignored, in order.
pub open spec fn kept_entries(entries: Seq<ConditionEntry>) -> Seq<ConditionEntry>
    decreases entries.len(),
{
    if entries.len() == 0 {
        Seq::empty()
    } else {
        kept_entries(entries.drop_last()) + if entries.last() is Other {
            Seq::<ConditionEntry>::empty()
        } else {
            seq![entries.last()]
        }
    }
}

/// Whether some kept entry is refused.
pub open spec fn conditions_fail(entries: Seq<ConditionEntry>) -> bool {
    exists|j: int| 0 <= j < kept_entries(entries).len() && entry_fails(#[trigger] kept_entries(entries)[j])
}

/// `v` are the conditions of `entries`: those of the kept entries in order,
/// or `AnyFailure` alone when none is kept.
pub open spec fn conditions_built(entries: Seq<ConditionEntry>, v: Seq<RetryCondition>) -> bool {
    let k = kept_entries(entries);
    if k.len() == 0 {
        v.len() == 1 && v[0] is AnyFailure
    } else {
        v.len() == k.len() && forall|i: int|
            0 <= i < k.len() ==> entry_result(#[trigger] k[i], Ok::<RetryCondition, PipelineError>(v[i]))
    }
}

/// `e` is the error of the first refused kept entry.
pub open spec fn conditions_error(entries: Seq<ConditionEntry>, e: PipelineError) -> bool {
    let k = kept_entries(entries);
    exists|j: int|
        #![trigger k[j]]
        0 <= j < k.len() && entry_fails(k[j]) && (forall|i: int| 0 <= i < j ==> !entry_fails(#[trigger] k[i]))
            && entry_result(k[j], Err::<RetryCondition, PipelineError>(e))
}

/// What a `conditions` list with entries `entries` gives: its conditions
/// when no kept entry is refused, else the first refused entry's error.
pub open spec fn conditions_result(entries: Seq<ConditionEntry>, r: Result<Vec<RetryCondition>, PipelineError>) -> bool {
    match r {
        Ok(v) => !conditions_fail(entries) && conditions_built(entries, v@),
        Err(e) => conditions_fail(entries) && conditions_error(entries, e),
    }
}

/// The retry settings given by `f`, apart from the conditions.
pub open spec fn retry_plain_fields(f: RetryFields, c: RetryConfig) -> bool {
    &&& c.max_attempts == or_default(f.max_attempts, 0u32)
    &&& c.delay_seconds == or_default(f.delay_seconds, DEFAULT_RETRY_DELAY_SECONDS)
    &&& c.exponential_backoff == or_default(f.exponential_backoff, false)
    &&& c.max_delay_seconds == or_default(f.max_delay_seconds, DEFAULT_MAX_RETRY_DELAY_SECONDS)
}

/// Whether the retry fields are refused: the conditions list could not be
/// read, or one of its entries is refused.
pub open spec fn retry_fails(f: RetryFields) -> bool {
    match f.conditions {
        None => false,
        Some(Err(_)) => true,
        Some(Ok(entries)) => conditions_fail(entries@),
    }
}

/// What the retry fields give.
pub open spec fn retry_built(f: RetryFields, r: Result<RetryConfig, PipelineError>) -> bool {
    match f.conditions {
        None => r matches Ok(c) && retry_plain_fields(f, c) && c.retry_conditions@.len() == 1
            && c.retry_conditions@[0] is AnyFailure,
        Some(Err(e)) => r == Err::<RetryConfig, PipelineError>(PipelineError::LuaError(e)),
        Some(Ok(entries)) => match r {
            Ok(c) => !conditions_fail(entries@) && retry_plain_fields(f, c) && conditions_built(
                entries@,
                c.retry_conditions@,
            ),
            Err(e) => conditions_fail(entries@) && conditions_error(entries@, e),
        },
    }
}

/// What the parallel fields give.
pub open spec fn parallel_built(f: ParallelFields, c: ParallelConfig) -> bool {
    &&& c.enabled == or_default(f.enabled, false)
    &&& c.max_concurrent == or_default(f.max_concurrent, DEFAULT_MAX_PARALLEL)
    &&& c.dependency_timeout_seconds == or_default(
        f.dependency_timeout_seconds,
        DEFAULT_DEPENDENCY_TIMEOUT_SECONDS,
    )
    &&& match f.failure_strategy {
        Some(s) => failure_strategy_parsed(s@, str_lowercase(s@), c.failure_strategy),
        None => c.failure_strategy is FailFast,
    }
}

/// What the configuration fields give.
pub open spec fn config_built(f: ConfigFields, c: PipelineConfig) -> bool {
    &&& c.timeout_seconds == or_default(f.timeout_seconds, DEFAULT_TIMEOUT_SECONDS)
    &&& c.continue_on_error == or_default(f.continue_on_error, false)
    &&& c.working_directory == f.working_directory
    &&& c.global_env@ == pairs_or_empty(f.global_env)
    &&& c.max_memory_bytes == f.max_memory_bytes
    &&& c.verbose == or_default(f.verbose, false)
    &&& match f.parallel {
        Some(p) => parallel_built(p, c.parallel),
        None => c.parallel.is_default(),
    }
}

/// Text of the action reference of step `index` (counted from 1).
pub open spec fn action_reference(index: nat) -> Seq<char> {
    "pipeline.steps["@ + decimal(index) + "].action()"@
}

/// The step fields other than name and retry settings carried over.
pub open spec fn step_plain_fields(f: StepFields, index: nat, s: PipelineStep) -> bool {
    &&& s.description == f.description
    &&& s.condition == f.condition
    &&& s.env@ == pairs_or_empty(f.env)
    &&& s.parallel == or_default(f.parallel, false)
    &&& match f.depends_on {
        Some(d) => s.depends_on == d,
        None => s.depends_on@.len() == 0,
    }
    &&& s.critical == or_default(f.critical, false)
    &&& s.timeout_seconds == f.timeout
    &&& s.working_directory == f.working_directory
    &&& s.metadata@ == pairs_or_empty(f.metadata)
    &&& if f.has_action {
        s.action matches Some(a) && a@ == action_reference(index)
    } else {
        s.action is None
    }
}

/// Whether the step fields are refused: no name, or refused retry fields.
pub open spec fn step_fails(f: StepFields) -> bool {
    f.name is None || (f.retry matches Some(rf) && retry_fails(rf))
}

/// What the fields of step `index` (counted from 1) give.
pub open spec fn step_built(f: StepFields, index: nat, r: Result<PipelineStep, PipelineError>) -> bool {
    match f.name {
        None => r matches Err(e) && is_parse_error(
            e,
            "Step "@ + decimal(index) + " must have a 'name' field"@,
        ),
        Some(n) => match f.retry {
            None => r matches Ok(s) && s.name == n && step_plain_fields(f, index, s) && s.retry.is_default(),
            Some(rf) => match r {
                Ok(s) => s.name == n && step_plain_fields(f, index, s) && retry_built(
                    rf,
                    Ok::<RetryConfig, PipelineError>(s.retry),
                ),
                Err(e) => retry_built(rf, Err::<RetryConfig, PipelineError>(e)),
            },
        },
    }
}

/// Whether step entry `k` of a steps list is refused: it could not be read,
/// or its fields are refused.
pub open spec fn step_entry_fails(x: Result<StepFields, mlua::Error>) -> bool {
    match x {
        Err(_) => true,
        Ok(f) => step_fails(f),
    }
}

/// What the entries of a steps list give: the steps in order, or the error of
/// the first refused entry.
pub open spec fn steps_built(list: Seq<Result<StepFields, mlua::Error>>, r: Result<Vec<PipelineStep>, PipelineError>) -> bool {
    match r {
        Ok(v) => v@.len() == list.len() && forall|k: int|
            0 <= k < list.len() ==> ((#[trigger] list[k]) matches Ok(f) && step_built(
                f,
                (k + 1) as nat,
                Ok::<PipelineStep, PipelineError>(v@[k]),
            )),
        Err(e) => exists|j: int|
            #![trigger list[j]]
            0 <= j < list.len() && step_entry_fails(list[j]) && (forall|k: int|
                0 <= k < j ==> !step_entry_fails(#[trigger] list[k])) && match list[j] {
                Err(le) => e == PipelineError::LuaError(le),
                Ok(f) => step_built(f, (j + 1) as nat, Err::<PipelineStep, PipelineError>(e)),
            },
    }
}

/// What the pipeline fields give.
pub open spec fn pipeline_built(f: PipelineFields, r: Result<Pipeline, PipelineError>) -> bool {
    match f.name {
        None => r matches Err(e) && is_parse_error(e, "Pipeline must have a 'name' field"@),
        Some(n) => match f.steps {
            None => r matches Err(e) && is_parse_error(e, "Pipeline must have a 'steps' field"@),
            Some(Err(le)) => r == Err::<Pipeline, PipelineError>(PipelineError::LuaError(le)),
            Some(Ok(list)) => match r {
                Ok(p) => {
                    &&& p.name == n
                    &&& p.description == f.description
                    &&& p.version == f.version
                    &&& p.env@ == pairs_or_empty(f.env)
                    &&& p.metadata@ == pairs_or_empty(f.metadata)
                    &&& match f.config {
                        Some(cf) => config_built(cf, p.config),
                        None => p.config.is_default(),
                    }
                    &&& steps_built(list@, Ok::<Vec<PipelineStep>, PipelineError>(p.steps))
                },
                Err(e) => steps_built(list@, Err::<Vec<PipelineStep>, PipelineError>(e)),
            },
        },
    }
}

proof fn lemma_kept_concat(a: Seq<ConditionEntry>, b: Seq<ConditionEntry>)
    ensures
        kept_entries(a + b) == kept_entries(a) + kept_entries(b),
    decreases b.len(),
{
    if b.len() == 0 {
        assert(a + b =~= a);
        assert(kept_entries(a) + kept_entries(b) =~= kept_entries(a));
    } else {
        lemma_kept_concat(a, b.drop_last());
        assert((a + b).drop_last() =~= a + b.drop_last());
        assert((a + b).last() == b.last());
        if b.last() is Other {
            assert(kept_entries(a) + kept_entries(b) =~= kept_entries(a) + kept_entries(b.drop_last()));
        } else {
            assert(kept_entries(a) + kept_entries(b) =~= kept_entries(a) + kept_entries(b.drop_last()) + seq![b.last()]);
        }
    }
}

/// The string map of an optional list of pairs.
fn map_of_pairs(o: Option<Vec<(String, String)>>) -> (r: StrMap<String>)
    ensures
        r@ == pairs_or_empty(o),
{
    match o {
        Some(p) => StrMap::from_pairs(p),
        None => StrMap::new(),
    }
}

impl PipelineParser {
    /// The retry condition written as a table: `exit_codes`, else
    /// `error_pattern`, else `lua_condition`.
    pub fn condition_from_table(
        exit_codes: Option<Vec<i32>>,
        error_pattern: Option<String>,
        lua_condition: Option<String>,
    ) -> (r: Result<RetryCondition, PipelineError>)
        ensures
            condition_table_built(exit_codes, error_pattern, lua_condition, r),
    {
        match exit_codes {
            Some(v) => Ok(RetryCondition::ExitCodes(v)),
            None => match error_pattern {
                Some(p) => Ok(RetryCondition::ErrorPattern(p)),
                None => match lua_condition {
                    Some(l) => Ok(RetryCondition::LuaCondition(l)),
                    None => Err(PipelineError::ParseError("Invalid retry condition table".to_owned())),
                },
            },
        }
    }

    /// The retry conditions of a `conditions` list, in order; `AnyFailure`
    /// alone when the list gives none.
    pub fn conditions_from_entries(entries: Vec<ConditionEntry>) -> (r: Result<Vec<RetryCondition>, PipelineError>)
        ensures
            conditions_result(entries@, r),
    {
        let ghost all = entries@;
        let mut rest = entries;
        let mut out: Vec<RetryCondition> = Vec::new();
        let mut i: usize = 0;
        assert(all.len() == rest.len());
        assert(all.subrange(0, 0) =~= Seq::<ConditionEntry>::empty());
        assert(rest@ =~= all.subrange(0, all.len() as int));
        while rest.len() > 0
            invariant
                all == entries@,
                i <= all.len(),
                all.len() <= usize::MAX,
                rest@ == all.subrange(i as int, all.len() as int),
                out@.len() == kept_entries(all.subrange(0, i as int)).len(),
                forall|k: int|
                    0 <= k < out@.len() ==> entry_result(
                        #[trigger] kept_entries(all.subrange(0, i as int))[k],
                        Ok::<RetryCondition, PipelineError>(out@[k]),
                    ),
                forall|k: int|
                    0 <= k < out@.len() ==> !entry_fails(#[trigger] kept_entries(all.subrange(0, i as int))[k]),
            decreases rest@.len(),
        {
            let entry = rest.remove(0);
            let ghost prefix = all.subrange(0, i as int);
            let ghost next = all.subrange(0, i + 1);
            proof {
                assert(entry == all[i as int]);
                assert(next.drop_last() =~= prefix);
                assert(next.last() == entry);
                assert(rest@ =~= all.subrange(i + 1, all.len() as int));
                lemma_kept_concat(next, all.subrange(i + 1, all.len() as int));
                assert(next + all.subrange(i + 1, all.len() as int) =~= all);
            }
            let ghost e0 = entry;
            let c = match entry {
                ConditionEntry::Text(t) => Some(Self::parse_retry_condition(t.as_str())),
                ConditionEntry::Table { exit_codes, error_pattern, lua_condition } => Some(
                    Self::condition_from_table(exit_codes, error_pattern, lua_condition),
                ),
                ConditionEntry::Other => None,
            };
            match c {
                Some(Ok(cond)) => {
                    let ghost before = out@;
                    out.push(cond);
                    proof {
                        assert(kept_entries(next) =~= kept_entries(prefix) + seq![e0]);
                        assert forall|k: int| 0 <= k < out@.len() implies entry_result(
                            #[trigger] kept_entries(next)[k],
                            Ok::<RetryCondition, PipelineError>(out@[k]),
                        ) && !entry_fails(kept_entries(next)[k]) by {
                            if k < before.len() {
                                assert(kept_entries(next)[k] == kept_entries(prefix)[k]);
                                assert(out@[k] == before[k]);
                            }
                        }
                    }
                },
                Some(Err(err)) => {
                    proof {
                        let j = kept_entries(prefix).len() as int;
                        assert(kept_entries(next) =~= kept_entries(prefix) + seq![e0]);
                        let whole = kept_entries(all);
                        assert(whole =~= kept_entries(next) + kept_entries(all.subrange(i + 1, all.len() as int)));
                        assert(whole[j] == e0);
                        assert forall|k: int| 0 <= k < j implies !entry_fails(#[trigger] whole[k]) by {
                            assert(whole[k] == kept_entries(prefix)[k]);
                        }
                        assert(entry_fails(whole[j]));
                        assert(entry_result(e0, Err::<RetryCondition, PipelineError>(err)));
                        assert(conditions_fail(all));
                        assert(conditions_error(all, err));
                    }
                    return Err(err);
                },
                None => {
                    proof {
                        assert(kept_entries(next) =~= kept_entries(prefix));
                    }
                },
            }
            i = i + 1;
        }
        proof {
            assert(all.subrange(0, i as int) =~= all);
            assert forall|j: int|
                0 <= j < kept_entries(all).len() implies !entry_fails(#[trigger] kept_entries(all)[j]) by {}
        }
        if out.len() == 0 {
            out.push(RetryCondition::AnyFailure);
        }
        Ok(out)
    }

    /// The retry settings given by a `retry` table's fields.
    pub fn retry_from_fields(f: RetryFields) -> (r: Result<RetryConfig, PipelineError>)
        ensures
            retry_built(f, r),
            r is Err <==> retry_fails(f),
    {
        let ghost f0 = f;
        let RetryFields { max_attempts, delay_seconds, exponential_backoff, max_delay_seconds, conditions } = f;
        let retry_conditions = match conditions {
            None => {
                let mut v: Vec<RetryCondition> = Vec::new();
                v.push(RetryCondition::AnyFailure);
                v
            },
            Some(Err(e)) => {
                return Err(PipelineError::LuaError(e));
            },
            Some(Ok(entries)) => match Self::conditions_from_entries(entries) {
                Ok(v) => v,
                Err(e) => {
                    return Err(e);
                },
            },
        };
        let max_attempts = match max_attempts {
            Some(x) => x,
            None => 0,
        };
        let delay_seconds = match delay_seconds {
            Some(x) => x,
            None => DEFAULT_RETRY_DELAY_SECONDS,
        };
        let exponential_backoff = match exponential_backoff {
            Some(x) => x,
            None => false,
        };
        let max_delay_seconds = match max_delay_seconds {
            Some(x) => x,
            None => DEFAULT_MAX_RETRY_DELAY_SECONDS,
        };
        Ok(RetryConfig { max_attempts, delay_seconds, exponential_backoff, max_delay_seconds, retry_conditions })
    }

    /// The parallel settings given by a `parallel` table's fields.
    pub fn parallel_from_fields(f: ParallelFields) -> (r: ParallelConfig)
        ensures
            parallel_built(f, r),
    {
        let ParallelFields { enabled, max_concurrent, dependency_timeout_seconds, failure_strategy } = f;
        let failure_strategy = match failure_strategy {
            Some(s) => match Self::parse_failure_strategy(s.as_str()) {
                Ok(x) => x,
                Err(_) => FailureStrategy::FailFast,
            },
            None => FailureStrategy::FailFast,
        };
        ParallelConfig {
            enabled: match enabled {
                Some(x) => x,
                None => false,
            },
            max_concurrent: match max_concurrent {
                Some(x) => x,
                None => DEFAULT_MAX_PARALLEL,
            },
            dependency_timeout_seconds: match dependency_timeout_seconds {
                Some(x) => x,
                None => DEFAULT_DEPENDENCY_TIMEOUT_SECONDS,
            },
            failure_strategy,
        }
    }

    /// The pipeline settings given by a `config` table's fields.
    pub fn config_from_fields(f: ConfigFields) -> (r: PipelineConfig)
        ensures
            config_built(f, r),
    {
        let ConfigFields {
            timeout_seconds,
            continue_on_error,
            working_directory,
            global_env,
            max_memory_bytes,
            verbose,
            parallel,
        } = f;
        let parallel = match parallel {
            Some(p) => Self::parallel_from_fields(p),
            None => ParallelConfig::new(),
        };
        PipelineConfig {
            timeout_seconds: match timeout_seconds {
                Some(x) => x,
                None => DEFAULT_TIMEOUT_SECONDS,
            },
            continue_on_error: match continue_on_error {
                Some(x) => x,
                None => false,
            },
            working_directory,
            parallel,
            global_env: map_of_pairs(global_env),
            max_memory_bytes,
            verbose: match verbose {
                Some(x) => x,
                None => false,
            },
        }
    }

    /// The step given by the fields of step `index` (counted from 1).
    pub fn step_from_fields(f: StepFields, index: usize) -> (r: Result<PipelineStep, PipelineError>)
        ensures
            step_built(f, index as nat, r),
            r is Err <==> step_fails(f),
    {
        let StepFields {
            name,
            description,
            condition,
            env,
            parallel,
            depends_on,
            critical,
            timeout,
            working_directory,
            metadata,
            retry,
            has_action,
        } = f;
        let name = match name {
            Some(n) => n,
            None => {
                let mut m = "Step ".to_owned();
                m.append(decimal_string(index as u64).as_str());
                m.append(" must have a 'name' field");
                return Err(PipelineError::ParseError(m));
            },
        };
        let retry = match retry {
            Some(rf) => match Self::retry_from_fields(rf) {
                Ok(c) => c,
                Err(e) => {
                    return Err(e);
                },
            },
            None => RetryConfig::new(),
        };
        let action = if has_action {
            let mut a = "pipeline.steps[".to_owned();
            a.append(decimal_string(index as u64).as_str());
            a.append("].action()");
            Some(a)
        } else {
            None
        };
        Ok(
            PipelineStep {
                name,
                description,
                condition,
                env: map_of_pairs(env),
                parallel: match parallel {
                    Some(x) => x,
                    None => false,
                },
                depends_on: match depends_on {
                    Some(d) => d,
                    None => Vec::new(),
                },
                action,
                retry,
                timeout_seconds: timeout,
                critical: match critical {
                    Some(x) => x,
                    None => false,
                },
                metadata: map_of_pairs(metadata),
                working_directory,
            },
        )
    }

    /// The steps given by the entries of a steps list, in order; the error of
    /// the first refused entry otherwise.
    pub fn steps_from_fields(list: Vec<Result<StepFields, mlua::Error>>) -> (r: Result<Vec<PipelineStep>, PipelineError>)
        ensures
            steps_built(list@, r),
    {
        let ghost all = list@;
        let mut rest = list;
        let mut out: Vec<PipelineStep> = Vec::new();
        let mut i: usize = 0;
        assert(all.len() == rest.len());
        assert(rest@ =~= all.subrange(0, all.len() as int));
        while rest.len() > 0
            invariant
                all == list@,
                i <= all.len(),
                all.len() <= usize::MAX,
                rest@ == all.subrange(i as int, all.len() as int),
                out@.len() == i,
                forall|k: int|
                    0 <= k < i ==> ((#[trigger] all[k]) matches Ok(f) && step_built(
                        f,
                        (k + 1) as nat,
                        Ok::<PipelineStep, PipelineError>(out@[k]),
                    )),
                forall|k: int| 0 <= k < i ==> !step_entry_fails(#[trigger] all[k]),
            decreases rest@.len(),
        {
            let entry = rest.remove(0);
            proof {
                assert(entry == all[i as int]);
                assert(rest@ =~= all.subrange(i + 1, all.len() as int));
            }
            match entry {
                Err(le) => {
                    proof {
                        assert(step_entry_fails(all[i as int]));
                    }
                    return Err(PipelineError::LuaError(le));
                },
                Ok(f) => {
                    let ghost f0 = f;
                    match Self::step_from_fields(f, i + 1) {
                        Ok(step) => {
                            let ghost before = out@;
                            out.push(step);
                            proof {
                                assert forall|k: int| 0 <= k < i + 1 implies ((#[trigger] all[k]) matches Ok(g)
                                    && step_built(
                                    g,
                                    (k + 1) as nat,
                                    Ok::<PipelineStep, PipelineError>(out@[k]),
                                )) by {
                                    if k < i {
                                        assert(out@[k] == before[k]);
                                    }
                                }
                            }
                        },
                        Err(e) => {
                            proof {
                                assert(step_entry_fails(all[i as int]));
                            }
                            return Err(e);
                        },
                    }
                },
            }
            i = i + 1;
        }
        Ok(out)
    }

    /// The pipeline given by a pipeline table's fields.
    pub fn pipeline_from_fields(f: PipelineFields) -> (r: Result<Pipeline, PipelineError>)
        ensures
            pipeline_built(f, r),
    {
        let PipelineFields { name, description, version, env, metadata, config, steps } = f;
        let name = match name {
            Some(n) => n,
            None => {
                return Err(PipelineError::ParseError("Pipeline must have a 'name' field".to_owned()));
            },
        };
        let config = match config {
            Some(cf) => Self::config_from_fields(cf),
            None => PipelineConfig::new(),
        };
        let steps = match steps {
            None => {
                return Err(PipelineError::ParseError("Pipeline must have a 'steps' field".to_owned()));
            },
            Some(Err(le)) => {
                return Err(PipelineError::LuaError(le));
            },
            Some(Ok(list)) => match Self::steps_from_fields(list) {
                Ok(v) => v,
                Err(e) => {
                    return Err(e);
                },
            },
        };
        Ok(
            Pipeline {
                name,
                description,
                env: map_of_pairs(env),
                steps,
                config,
                metadata: map_of_pairs(metadata),
                version,
            },
        )
    }
}

} // verus!
