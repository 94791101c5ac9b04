//! Reading pipeline definitions out of Lua tables.
//!
//! What a table holds lives in the Lua state, which Verus does not see, so
//! the values read are not stated; each read is recorded instead, with the
//! path of the table, the key and what came back.  Each parsing function
//! reads the fields it needs and hands them to the matching function of
//! `definition`, whose contract is exact; its own contract says that its
//! result is what that function gives for the values its reads returned,
//! each field read under its own key.
use vstd::prelude::*;
use crate::config::{ParallelConfig, PipelineConfig, RetryCondition, RetryConfig};
use crate::definition::{
    condition_table_built, conditions_result, config_built,
    parallel_built, pipeline_built, retry_built, step_built, ConditionEntry, ConfigFields,
    ParallelFields, PipelineFields, RetryFields, StepFields,
};
use crate::error::PipelineError;
use crate::parser::PipelineParser;
use crate::step::{Pipeline, PipelineStep};

verus! {

/// A table of the Lua interpreter.
#[verifier::external_type_specification]
#[verifier::external_body]
pub struct ExLuaTable(mlua::Table);

/// What a read of a table gave back, as plain values: the value, when the
/// read succeeded, of a field of each kind; whether a nested table (or a
/// function) was found; the length of a list.
pub enum ReadValue {
    /// A text field.
    Text(Option<String>),
    /// A boolean field.
    Flag(Option<bool>),
    /// A `u64` field.
    Big(Option<u64>),
    /// A `u32` field.
    Small(Option<u32>),
    /// A `usize` field.
    Size(Option<usize>),
    /// A list of texts.
    Texts(Option<Vec<String>>),
    /// A list of `i32`.
    Codes(Option<Vec<i32>>),
    /// A text-to-text table, as its pairs.
    Pairs(Option<Vec<(String, String)>>),
    /// Whether a nested table was found.
    Table(bool),
    /// Whether a function was found.
    Function(bool),
    /// The length of a list, when it could be read.
    Length(Option<i64>),
}

/// The key of the entry at position `k` of a list (positions count from 1).
pub open spec fn position_key(k: int) -> Seq<char> {
    Seq::new(k as nat, |_i: int| '#')
}

/// The key under which the length of a list is recorded.
pub open spec fn length_key() -> Seq<char> {
    Seq::empty()
}

/// One read: the path of the table read (the keys leading to it from the
/// table handed to the parser), the key, and what came back.
pub type Read = (Seq<Seq<char>>, Seq<char>, ReadValue);

/// A table of the Lua interpreter, with the path of keys that led to it.
pub struct LuaTable {
    table: mlua::Table,
    path: Ghost<Seq<Seq<char>>>,
}

impl LuaTable {
    /// The keys that led to this table.
    pub closed spec fn path(&self) -> Seq<Seq<char>> {
        self.path@
    }

    /// A table handed to the parser, reached by no key.
    pub fn new(table: mlua::Table) -> (r: Self)
        ensures
            r.path() == Seq::<Seq<char>>::empty(),
    {
        LuaTable { table, path: Ghost(Seq::empty()) }
    }
}

/// The record of the reads made on Lua tables, in order.
pub struct ReadLog {
    reads: Ghost<Seq<Read>>,
}

impl ReadLog {
    /// The reads made so far.
    pub closed spec fn reads(&self) -> Seq<Read> {
        self.reads@
    }

    /// An empty record.
    pub fn new() -> (r: Self)
        ensures
            r.reads() == Seq::<Read>::empty(),
    {
        ReadLog { reads: Ghost(Seq::empty()) }
    }
}

/// The value of a read, when it succeeded.
pub open spec fn ok_of<T>(r: Result<T, mlua::Error>) -> Option<T> {
    match r {
        Ok(x) => Some(x),
        Err(_) => None,
    }
}

/// The table at `path` was read under `key`, giving `v`.
pub open spec fn was_read(log: Seq<Read>, path: Seq<Seq<char>>, key: Seq<char>, v: ReadValue) -> bool {
    exists|k: int| 0 <= k < log.len() && #[trigger] log[k] == (path, key, v)
}

/// `b` holds the reads of `a` and possibly more after them.
pub open spec fn extends(a: Seq<Read>, b: Seq<Read>) -> bool {
    a.len() <= b.len() && b.subrange(0, a.len() as int) == a
}

/// A read recorded in `a` stays recorded in any log that extends it.
pub proof fn lemma_reads_persist(a: Seq<Read>, b: Seq<Read>)
    requires
        extends(a, b),
    ensures
        forall|p: Seq<Seq<char>>, key: Seq<char>, v: ReadValue|
            #[trigger] was_read(a, p, key, v) ==> was_read(b, p, key, v),
{
    assert forall|p: Seq<Seq<char>>, key: Seq<char>, v: ReadValue|
        #[trigger] was_read(a, p, key, v) implies was_read(b, p, key, v) by {
        let k = choose|k: int| 0 <= k < a.len() && #[trigger] a[k] == (p, key, v);
        assert(b.subrange(0, a.len() as int)[k] == b[k]);
    }
}

/// `Table::get` of a text field; the read is recorded.
#[verifier::external_body]
fn get_string(log: &mut ReadLog, t: &LuaTable, key: &str) -> (r: Result<String, mlua::Error>)
    ensures
        final(log).reads() == old(log).reads().push((t.path(), key@, ReadValue::Text(ok_of(r)))),
{
    t.table.get::<String>(key)
}

/// `Table::get` of a boolean field; the read is recorded.
#[verifier::external_body]
fn get_bool(log: &mut ReadLog, t: &LuaTable, key: &str) -> (r: Result<bool, mlua::Error>)
    ensures
        final(log).reads() == old(log).reads().push((t.path(), key@, ReadValue::Flag(ok_of(r)))),
{
    t.table.get::<bool>(key)
}

/// `Table::get` of a `u64` field; the read is recorded.
#[verifier::external_body]
fn get_u64(log: &mut ReadLog, t: &LuaTable, key: &str) -> (r: Result<u64, mlua::Error>)
    ensures
        final(log).reads() == old(log).reads().push((t.path(), key@, ReadValue::Big(ok_of(r)))),
{
    t.table.get::<u64>(key)
}

/// `Table::get` of a `u32` field; the read is recorded.
#[verifier::external_body]
fn get_u32(log: &mut ReadLog, t: &LuaTable, key: &str) -> (r: Result<u32, mlua::Error>)
    ensures
        final(log).reads() == old(log).reads().push((t.path(), key@, ReadValue::Small(ok_of(r)))),
{
    t.table.get::<u32>(key)
}

/// `Table::get` of a `usize` field; the read is recorded.
#[verifier::external_body]
fn get_usize(log: &mut ReadLog, t: &LuaTable, key: &str) -> (r: Result<usize, mlua::Error>)
    ensures
        final(log).reads() == old(log).reads().push((t.path(), key@, ReadValue::Size(ok_of(r)))),
{
    t.table.get::<usize>(key)
}

/// `Table::get` of a list of texts; the read is recorded.
#[verifier::external_body]
fn get_strings(log: &mut ReadLog, t: &LuaTable, key: &str) -> (r: Result<Vec<String>, mlua::Error>)
    ensures
        final(log).reads() == old(log).reads().push((t.path(), key@, ReadValue::Texts(ok_of(r)))),
{
    t.table.get::<Vec<String>>(key)
}

/// `Table::get` of a list of `i32`; the read is recorded.
#[verifier::external_body]
fn get_codes(log: &mut ReadLog, t: &LuaTable, key: &str) -> (r: Result<Vec<i32>, mlua::Error>)
    ensures
        final(log).reads() == old(log).reads().push((t.path(), key@, ReadValue::Codes(ok_of(r)))),
{
    t.table.get::<Vec<i32>>(key)
}

/// `Table::get` of a text-to-text table, handed out as its pairs (in the
/// order in which the map is walked, which is not stated); the read is
/// recorded.
#[verifier::external_body]
fn get_pairs(log: &mut ReadLog, t: &LuaTable, key: &str) -> (r: Result<Vec<(String, String)>, mlua::Error>)
    ensures
        final(log).reads() == old(log).reads().push((t.path(), key@, ReadValue::Pairs(ok_of(r)))),
{
    t.table.get::<std::collections::HashMap<String, String>>(key).map(|m| m.into_iter().collect())
}

/// `Table::get` of a nested table, reached by the table's path and `key`;
/// the read is recorded.
#[verifier::external_body]
fn get_table(log: &mut ReadLog, t: &LuaTable, key: &str) -> (r: Result<LuaTable, mlua::Error>)
    ensures
        final(log).reads() == old(log).reads().push((t.path(), key@, ReadValue::Table(r is Ok))),
        r matches Ok(c) ==> c.path() == t.path().push(key@),
{
    t.table.get::<mlua::Table>(key).map(|x| LuaTable { table: x, path: Ghost(t.path@.push(key@)) })
}

/// Whether `Table::get` of a function field succeeds; the read is
/// recorded.
#[verifier::external_body]
fn has_function(log: &mut ReadLog, t: &LuaTable, key: &str) -> (r: bool)
    ensures
        final(log).reads() == old(log).reads().push((t.path(), key@, ReadValue::Function(r))),
{
    t.table.get::<mlua::Function>(key).is_ok()
}

/// `Table::len`, the Lua `#` operator; the read is recorded.
#[verifier::external_body]
fn table_len(log: &mut ReadLog, t: &LuaTable) -> (r: Result<i64, mlua::Error>)
    ensures
        final(log).reads() == old(log).reads().push((t.path(), length_key(), ReadValue::Length(ok_of(r)))),
{
    t.table.len()
}

/// `Table::get` of the table at position `i`; the read is recorded.
#[verifier::external_body]
fn get_table_at(log: &mut ReadLog, t: &LuaTable, i: i64) -> (r: Result<LuaTable, mlua::Error>)
    ensures
        final(log).reads() == old(log).reads().push((t.path(), position_key(i as int), ReadValue::Table(r is Ok))),
        r matches Ok(c) ==> c.path() == t.path().push(position_key(i as int)),
{
    t.table.get::<mlua::Table>(i).map(|x| LuaTable { table: x, path: Ghost(t.path@.push(position_key(i as int))) })
}

/// `Table::get` of the text at position `i`; the read is recorded.
#[verifier::external_body]
fn get_string_at(log: &mut ReadLog, t: &LuaTable, i: i64) -> (r: Result<String, mlua::Error>)
    ensures
        final(log).reads() == old(log).reads().push((t.path(), position_key(i as int), ReadValue::Text(ok_of(r)))),
{
    t.table.get::<String>(i)
}

/// The value of a read, when it succeeded.
fn ok_value<T>(r: Result<T, mlua::Error>) -> (o: Option<T>)
    ensures
        o == ok_of(r),
{
    match r {
        Ok(x) => Some(x),
        Err(_) => None,
    }
}

/// The number of entries a list of length `len` has.
pub open spec fn list_size(len: i64) -> int {
    if len > 0 {
        len as int
    } else {
        0
    }
}

/// Entry `e` of a `conditions` list, at position `i`, is what the reads at
/// `p` gave: a text, else a table with its fields, else something ignored.
pub open spec fn condition_entry_read(log: Seq<Read>, p: Seq<Seq<char>>, i: int, e: ConditionEntry) -> bool {
    let key = position_key(i);
    match e {
        ConditionEntry::Text(s) => was_read(log, p, key, ReadValue::Text(Some(s))),
        ConditionEntry::Table { exit_codes, error_pattern, lua_condition } => {
            let q = p.push(key);
            &&& was_read(log, p, key, ReadValue::Text(None))
            &&& was_read(log, p, key, ReadValue::Table(true))
            &&& was_read(log, q, "exit_codes"@, ReadValue::Codes(exit_codes))
            &&& was_read(log, q, "error_pattern"@, ReadValue::Text(error_pattern))
            &&& was_read(log, q, "lua_condition"@, ReadValue::Text(lua_condition))
        },
        ConditionEntry::Other => was_read(log, p, key, ReadValue::Text(None)) && was_read(
            log,
            p,
            key,
            ReadValue::Table(false),
        ),
    }
}

/// A `conditions` list at `p` gave `c`: an error when its length could not
/// be read, else one entry for each position from 1 to its length.
pub open spec fn conditions_read(log: Seq<Read>, p: Seq<Seq<char>>, c: Result<Vec<ConditionEntry>, mlua::Error>) -> bool {
    match c {
        Err(_) => was_read(log, p, length_key(), ReadValue::Length(None)),
        Ok(v) => exists|len: i64|
            #![trigger was_read(log, p, length_key(), ReadValue::Length(Some(len)))]
            {
                &&& was_read(log, p, length_key(), ReadValue::Length(Some(len)))
                &&& v@.len() == list_size(len)
                &&& forall|k: int| 0 <= k < v@.len() ==> condition_entry_read(log, p, k + 1, #[trigger] v@[k])
            },
    }
}

/// A `retry` table at `p` gave `f`.
pub open spec fn retry_fields_read(log: Seq<Read>, p: Seq<Seq<char>>, f: RetryFields) -> bool {
    &&& was_read(log, p, "max_attempts"@, ReadValue::Small(f.max_attempts))
    &&& was_read(log, p, "delay_seconds"@, ReadValue::Big(f.delay_seconds))
    &&& was_read(log, p, "exponential_backoff"@, ReadValue::Flag(f.exponential_backoff))
    &&& was_read(log, p, "max_delay_seconds"@, ReadValue::Big(f.max_delay_seconds))
    &&& was_read(log, p, "conditions"@, ReadValue::Table(f.conditions is Some))
    &&& f.conditions matches Some(c) ==> conditions_read(log, p.push("conditions"@), c)
}

/// A `parallel` table at `p` gave `f`.
pub open spec fn parallel_fields_read(log: Seq<Read>, p: Seq<Seq<char>>, f: ParallelFields) -> bool {
    &&& was_read(log, p, "enabled"@, ReadValue::Flag(f.enabled))
    &&& was_read(log, p, "max_concurrent"@, ReadValue::Size(f.max_concurrent))
    &&& was_read(log, p, "dependency_timeout_seconds"@, ReadValue::Big(f.dependency_timeout_seconds))
    &&& was_read(log, p, "failure_strategy"@, ReadValue::Text(f.failure_strategy))
}

/// A `config` table at `p` gave `f`.
pub open spec fn config_fields_read(log: Seq<Read>, p: Seq<Seq<char>>, f: ConfigFields) -> bool {
    &&& was_read(log, p, "timeout_seconds"@, ReadValue::Big(f.timeout_seconds))
    &&& was_read(log, p, "continue_on_error"@, ReadValue::Flag(f.continue_on_error))
    &&& was_read(log, p, "working_directory"@, ReadValue::Text(f.working_directory))
    &&& was_read(log, p, "global_env"@, ReadValue::Pairs(f.global_env))
    &&& was_read(log, p, "max_memory_bytes"@, ReadValue::Big(f.max_memory_bytes))
    &&& was_read(log, p, "verbose"@, ReadValue::Flag(f.verbose))
    &&& was_read(log, p, "parallel"@, ReadValue::Table(f.parallel is Some))
    &&& f.parallel matches Some(pf) ==> parallel_fields_read(log, p.push("parallel"@), pf)
}

/// A step table at `p` gave `f`.
pub open spec fn step_fields_read(log: Seq<Read>, p: Seq<Seq<char>>, f: StepFields) -> bool {
    &&& was_read(log, p, "name"@, ReadValue::Text(f.name))
    &&& was_read(log, p, "description"@, ReadValue::Text(f.description))
    &&& was_read(log, p, "condition"@, ReadValue::Text(f.condition))
    &&& was_read(log, p, "env"@, ReadValue::Pairs(f.env))
    &&& was_read(log, p, "parallel"@, ReadValue::Flag(f.parallel))
    &&& was_read(log, p, "depends_on"@, ReadValue::Texts(f.depends_on))
    &&& was_read(log, p, "critical"@, ReadValue::Flag(f.critical))
    &&& was_read(log, p, "timeout"@, ReadValue::Big(f.timeout))
    &&& was_read(log, p, "working_directory"@, ReadValue::Text(f.working_directory))
    &&& was_read(log, p, "metadata"@, ReadValue::Pairs(f.metadata))
    &&& was_read(log, p, "retry"@, ReadValue::Table(f.retry is Some))
    &&& f.retry matches Some(rf) ==> retry_fields_read(log, p.push("retry"@), rf)
    &&& was_read(log, p, "action"@, ReadValue::Function(f.has_action))
}

/// A `steps` list at `p` gave `s`: an error when its length could not be
/// read; else, for the positions from 1 on, the step read from the table
/// there, ending at the first position that does not hold a table.
pub open spec fn steps_read(log: Seq<Read>, p: Seq<Seq<char>>, s: Result<Vec<Result<StepFields, mlua::Error>>, mlua::Error>) -> bool {
    match s {
        Err(_) => was_read(log, p, length_key(), ReadValue::Length(None)),
        Ok(v) => exists|len: i64|
            #![trigger was_read(log, p, length_key(), ReadValue::Length(Some(len)))]
            {
                &&& was_read(log, p, length_key(), ReadValue::Length(Some(len)))
                &&& v@.len() <= list_size(len)
                &&& v@.len() < list_size(len) ==> v@.len() > 0 && v@.last() is Err
                &&& forall|k: int|
                    0 <= k < v@.len() ==> match #[trigger] v@[k] {
                        Ok(sf) => was_read(log, p, position_key(k + 1), ReadValue::Table(true)) && step_fields_read(
                            log,
                            p.push(position_key(k + 1)),
                            sf,
                        ),
                        Err(_) => was_read(log, p, position_key(k + 1), ReadValue::Table(false)) && k == v@.len() - 1,
                    }
            },
    }
}

/// A pipeline table at `p` gave `f`.
pub open spec fn pipeline_fields_read(log: Seq<Read>, p: Seq<Seq<char>>, f: PipelineFields) -> bool {
    &&& was_read(log, p, "name"@, ReadValue::Text(f.name))
    &&& was_read(log, p, "description"@, ReadValue::Text(f.description))
    &&& was_read(log, p, "version"@, ReadValue::Text(f.version))
    &&& was_read(log, p, "env"@, ReadValue::Pairs(f.env))
    &&& was_read(log, p, "metadata"@, ReadValue::Pairs(f.metadata))
    &&& was_read(log, p, "config"@, ReadValue::Table(f.config is Some))
    &&& f.config matches Some(cf) ==> config_fields_read(log, p.push("config"@), cf)
    &&& was_read(log, p, "steps"@, ReadValue::Table(f.steps is Some))
    &&& f.steps matches Some(s) ==> steps_read(log, p.push("steps"@), s)
}

/// A read just recorded is in the log, and so is every earlier one; the
/// log still extends `start`.
pub proof fn lemma_step_read(start: Seq<Read>, prev: Seq<Read>, x: Read)
    requires
        extends(start, prev),
    ensures
        was_read(prev.push(x), x.0, x.1, x.2),
        extends(start, prev.push(x)),
        forall|p: Seq<Seq<char>>, key: Seq<char>, v: ReadValue|
            #[trigger] was_read(prev, p, key, v) ==> was_read(prev.push(x), p, key, v),
{
    let n = prev.len() as int;
    assert(prev.push(x)[n] == x);
    assert(prev.push(x).subrange(0, n) =~= prev);
    lemma_reads_persist(prev, prev.push(x));
    lemma_extends_trans(start, prev, prev.push(x));
}

/// After nested reads the log still extends `start`, and earlier reads stay.
pub proof fn lemma_step_nested(start: Seq<Read>, prev: Seq<Read>, cur: Seq<Read>)
    requires
        extends(start, prev),
        extends(prev, cur),
    ensures
        extends(start, cur),
        forall|p: Seq<Seq<char>>, key: Seq<char>, v: ReadValue|
            #[trigger] was_read(prev, p, key, v) ==> was_read(cur, p, key, v),
{
    lemma_reads_persist(prev, cur);
    lemma_extends_trans(start, prev, cur);
}

/// Extending is transitive.
pub proof fn lemma_extends_trans(a: Seq<Read>, b: Seq<Read>, c: Seq<Read>)
    requires
        extends(a, b),
        extends(b, c),
    ensures
        extends(a, c),
{
    assert(c.subrange(0, a.len() as int) =~= c.subrange(0, b.len() as int).subrange(0, a.len() as int));
}

/// A log extends itself.
pub proof fn lemma_extends_refl(a: Seq<Read>)
    ensures
        extends(a, a),
{
    assert(a.subrange(0, a.len() as int) =~= a);
}

/// The entries of a `conditions` list: for each position from 1 to its
/// length, a text, else a table, else something ignored.
fn read_condition_entries(log: &mut ReadLog, t: &LuaTable) -> (r: Result<Vec<ConditionEntry>, mlua::Error>)
    ensures
        extends(old(log).reads(), final(log).reads()),
        conditions_read(final(log).reads(), t.path(), r),
{
    let ghost l0 = log.reads();
    let ghost p = t.path();
    proof {
        lemma_extends_refl(l0);
    }
    let ghost l_len = log.reads();
    let len = match table_len(log, t) {
        Ok(n) => n,
        Err(e) => {
            proof {
                lemma_step_read(l0, l_len, (p, length_key(), ReadValue::Length(None)));
            }
            return Err(e);
        },
    };
    proof {
        lemma_step_read(l0, l_len, (p, length_key(), ReadValue::Length(Some(len))));
    }
    let mut entries: Vec<ConditionEntry> = Vec::new();
    let mut k: i64 = 0;
    while k < len
        invariant
            0 <= k,
            k <= len || k == 0,
            entries@.len() == k,
            p == t.path(),
            l0 == old(log).reads(),
            extends(l0, log.reads()),
            was_read(log.reads(), p, length_key(), ReadValue::Length(Some(len))),
            forall|j: int| 0 <= j < k ==> condition_entry_read(log.reads(), p, j + 1, #[trigger] entries@[j]),
        decreases len - k,
    {
        let i = k + 1;
        let ghost la = log.reads();
        proof {
            lemma_extends_refl(la);
        }
        let entry = match get_string_at(log, t, i) {
            Ok(s) => {
                proof {
                    lemma_step_read(la, la, (p, position_key(i as int), ReadValue::Text(Some(s))));
                }
                ConditionEntry::Text(s)
            },
            Err(_) => {
                proof {
                    lemma_step_read(la, la, (p, position_key(i as int), ReadValue::Text(None)));
                }
                let ghost lb = log.reads();
                match get_table_at(log, t, i) {
                    Ok(ct) => {
                        proof {
                            lemma_step_read(la, lb, (p, position_key(i as int), ReadValue::Table(true)));
                        }
                        let ghost q = ct.path();
                        let ghost lc = log.reads();
                        let exit_codes = ok_value(get_codes(log, &ct, "exit_codes"));
                        proof {
                            lemma_step_read(la, lc, (q, "exit_codes"@, ReadValue::Codes(exit_codes)));
                        }
                        let ghost ld = log.reads();
                        let error_pattern = ok_value(get_string(log, &ct, "error_pattern"));
                        proof {
                            lemma_step_read(la, ld, (q, "error_pattern"@, ReadValue::Text(error_pattern)));
                        }
                        let ghost le = log.reads();
                        let lua_condition = ok_value(get_string(log, &ct, "lua_condition"));
                        proof {
                            lemma_step_read(la, le, (q, "lua_condition"@, ReadValue::Text(lua_condition)));
                        }
                        ConditionEntry::Table { exit_codes, error_pattern, lua_condition }
                    },
                    Err(_) => {
                        proof {
                            lemma_step_read(la, lb, (p, position_key(i as int), ReadValue::Table(false)));
                        }
                        ConditionEntry::Other
                    },
                }
            },
        };
        proof {
            lemma_extends_trans(l0, la, log.reads());
            lemma_reads_persist(la, log.reads());
            assert(condition_entry_read(log.reads(), p, i as int, entry));
            assert forall|j: int| 0 <= j < k implies condition_entry_read(log.reads(), p, j + 1, #[trigger] entries@[j]) by {
                assert(condition_entry_read(la, p, j + 1, entries@[j]));
            }
        }
        entries.push(entry);
        k = k + 1;
        proof {
            assert forall|j: int| 0 <= j < k implies condition_entry_read(log.reads(), p, j + 1, #[trigger] entries@[j]) by {
                if j < k - 1 {
                    assert(entries@[j] == entries@.drop_last()[j]);
                }
            }
        }
    }
    Ok(entries)
}

/// The entries of a `steps` list, for each position from 1 to its length,
/// ending at the first position that does not hold a table.
fn read_step_entries(log: &mut ReadLog, t: &LuaTable) -> (r: Result<Vec<Result<StepFields, mlua::Error>>, mlua::Error>)
    ensures
        extends(old(log).reads(), final(log).reads()),
        steps_read(final(log).reads(), t.path(), r),
        r matches Ok(v) ==> forall|i: int| 0 <= i < v@.len() - 1 ==> (#[trigger] v@[i]) is Ok,
{
    let ghost l0 = log.reads();
    let ghost p = t.path();
    proof {
        lemma_extends_refl(l0);
    }
    let ghost l_len = log.reads();
    let len = match table_len(log, t) {
        Ok(n) => n,
        Err(e) => {
            proof {
                lemma_step_read(l0, l_len, (p, length_key(), ReadValue::Length(None)));
            }
            return Err(e);
        },
    };
    proof {
        lemma_step_read(l0, l_len, (p, length_key(), ReadValue::Length(Some(len))));
    }
    let mut entries: Vec<Result<StepFields, mlua::Error>> = Vec::new();
    let mut k: i64 = 0;
    while k < len
        invariant
            0 <= k,
            k <= len || k == 0,
            entries@.len() == k,
            p == t.path(),
            l0 == old(log).reads(),
            extends(l0, log.reads()),
            was_read(log.reads(), p, length_key(), ReadValue::Length(Some(len))),
            forall|i: int| 0 <= i < entries@.len() ==> (#[trigger] entries@[i]) is Ok,
            forall|j: int|
                0 <= j < k ==> match #[trigger] entries@[j] {
                    Ok(sf) => was_read(log.reads(), p, position_key(j + 1), ReadValue::Table(true))
                        && step_fields_read(log.reads(), p.push(position_key(j + 1)), sf),
                    Err(_) => false,
                },
        decreases len - k,
    {
        let i = k + 1;
        let ghost la = log.reads();
        proof {
            lemma_extends_refl(la);
        }
        match get_table_at(log, t, i) {
            Ok(st) => {
                proof {
                    lemma_step_read(la, la, (p, position_key(i as int), ReadValue::Table(true)));
                }
                let ghost lb = log.reads();
                let sf = read_step_fields(log, &st);
                proof {
                    lemma_step_nested(la, lb, log.reads());
                    lemma_extends_trans(l0, la, log.reads());
                    assert forall|j: int| 0 <= j < k implies match #[trigger] entries@[j] {
                        Ok(sf) => was_read(log.reads(), p, position_key(j + 1), ReadValue::Table(true))
                            && step_fields_read(log.reads(), p.push(position_key(j + 1)), sf),
                        Err(_) => false,
                    } by {
                        lemma_step_fields_persist(la, log.reads(), p.push(position_key(j + 1)), entries@[j]->Ok_0);
                        lemma_reads_persist(la, log.reads());
                    }
                }
                entries.push(Ok(sf));
            },
            Err(e) => {
                proof {
                    lemma_step_read(la, la, (p, position_key(i as int), ReadValue::Table(false)));
                    lemma_extends_trans(l0, la, log.reads());
                    assert forall|j: int| 0 <= j < k implies match #[trigger] entries@[j] {
                        Ok(sf) => was_read(log.reads(), p, position_key(j + 1), ReadValue::Table(true))
                            && step_fields_read(log.reads(), p.push(position_key(j + 1)), sf),
                        Err(_) => false,
                    } by {
                        lemma_step_fields_persist(la, log.reads(), p.push(position_key(j + 1)), entries@[j]->Ok_0);
                    }
                }
                entries.push(Err(e));
                proof {
                    assert forall|j: int|
                        0 <= j < entries@.len() implies match #[trigger] entries@[j] {
                            Ok(sf) => was_read(log.reads(), p, position_key(j + 1), ReadValue::Table(true))
                                && step_fields_read(log.reads(), p.push(position_key(j + 1)), sf),
                            Err(_) => was_read(log.reads(), p, position_key(j + 1), ReadValue::Table(false)) && j
                                == entries@.len() - 1,
                        } by {
                        if j < k {
                            assert(entries@[j] == entries@.drop_last()[j]);
                        }
                    }
                    assert(steps_read(log.reads(), p, Ok(entries)));
                }
                return Ok(entries);
            },
        }
        k = k + 1;
        proof {
            assert forall|j: int|
                0 <= j < k implies match #[trigger] entries@[j] {
                    Ok(sf) => was_read(log.reads(), p, position_key(j + 1), ReadValue::Table(true))
                        && step_fields_read(log.reads(), p.push(position_key(j + 1)), sf),
                    Err(_) => false,
                } by {
                if j < k - 1 {
                    assert(entries@[j] == entries@.drop_last()[j]);
                }
            }
        }
    }
    proof {
        assert(steps_read(log.reads(), p, Ok(entries)));
    }
    Ok(entries)
}

/// The reads of a step table stay recorded as the log grows.
proof fn lemma_step_fields_persist(a: Seq<Read>, b: Seq<Read>, p: Seq<Seq<char>>, f: StepFields)
    requires
        extends(a, b),
        step_fields_read(a, p, f),
    ensures
        step_fields_read(b, p, f),
{
    lemma_reads_persist(a, b);
    if f.retry is Some {
        lemma_retry_fields_persist(a, b, p.push("retry"@), f.retry->Some_0);
    }
}

/// The reads of a `retry` table stay recorded as the log grows.
proof fn lemma_retry_fields_persist(a: Seq<Read>, b: Seq<Read>, p: Seq<Seq<char>>, f: RetryFields)
    requires
        extends(a, b),
        retry_fields_read(a, p, f),
    ensures
        retry_fields_read(b, p, f),
{
    lemma_reads_persist(a, b);
    if f.conditions is Some {
        let q = p.push("conditions"@);
        match f.conditions->Some_0 {
            Ok(v) => {
                let len = choose|len: i64|
                    #![trigger was_read(a, q, length_key(), ReadValue::Length(Some(len)))]
                    {
                        &&& was_read(a, q, length_key(), ReadValue::Length(Some(len)))
                        &&& v@.len() == list_size(len)
                        &&& forall|k: int| 0 <= k < v@.len() ==> condition_entry_read(a, q, k + 1, #[trigger] v@[k])
                    };
                assert(was_read(b, q, length_key(), ReadValue::Length(Some(len))));
                assert forall|k: int| 0 <= k < v@.len() implies condition_entry_read(b, q, k + 1, #[trigger] v@[k]) by {
                    assert(condition_entry_read(a, q, k + 1, v@[k]));
                }
            },
            Err(_) => {},
        }
    }
}

/// The fields of a `retry` table.
fn read_retry_fields(log: &mut ReadLog, t: &LuaTable) -> (r: RetryFields)
    ensures
        extends(old(log).reads(), final(log).reads()),
        retry_fields_read(final(log).reads(), t.path(), r),
{
    let ghost l0 = log.reads();
    proof {
        lemma_extends_refl(l0);
    }
    let ghost l_max_attempts = log.reads();
    let max_attempts = ok_value(get_u32(log, t, "max_attempts"));
    proof {
        lemma_step_read(l0, l_max_attempts, (t.path(), "max_attempts"@, ReadValue::Small(max_attempts)));
    }
    let ghost l_delay_seconds = log.reads();
    let delay_seconds = ok_value(get_u64(log, t, "delay_seconds"));
    proof {
        lemma_step_read(l0, l_delay_seconds, (t.path(), "delay_seconds"@, ReadValue::Big(delay_seconds)));
    }
    let ghost l_exponential_backoff = log.reads();
    let exponential_backoff = ok_value(get_bool(log, t, "exponential_backoff"));
    proof {
        lemma_step_read(l0, l_exponential_backoff, (t.path(), "exponential_backoff"@, ReadValue::Flag(exponential_backoff)));
    }
    let ghost l_max_delay_seconds = log.reads();
    let max_delay_seconds = ok_value(get_u64(log, t, "max_delay_seconds"));
    proof {
        lemma_step_read(l0, l_max_delay_seconds, (t.path(), "max_delay_seconds"@, ReadValue::Big(max_delay_seconds)));
    }
    let ghost l_conditions = log.reads();
    let conditions = match get_table(log, t, "conditions") {
        Ok(c) => {
            let ghost l_mid = log.reads();
            proof {
                lemma_step_read(l0, l_conditions, (t.path(), "conditions"@, ReadValue::Table(true)));
            }
            let f = read_condition_entries(log, &c);
            proof {
                lemma_step_nested(l0, l_mid, log.reads());
            }
            Some(f)
        },
        Err(_) => {
            proof {
                lemma_step_read(l0, l_conditions, (t.path(), "conditions"@, ReadValue::Table(false)));
            }
            None
        },
    };
    RetryFields { max_attempts, delay_seconds, exponential_backoff, max_delay_seconds, conditions }
}

/// The fields of a `parallel` table.
fn read_parallel_fields(log: &mut ReadLog, t: &LuaTable) -> (r: ParallelFields)
    ensures
        extends(old(log).reads(), final(log).reads()),
        parallel_fields_read(final(log).reads(), t.path(), r),
{
    let ghost l0 = log.reads();
    proof {
        lemma_extends_refl(l0);
    }
    let ghost l_enabled = log.reads();
    let enabled = ok_value(get_bool(log, t, "enabled"));
    proof {
        lemma_step_read(l0, l_enabled, (t.path(), "enabled"@, ReadValue::Flag(enabled)));
    }
    let ghost l_max_concurrent = log.reads();
    let max_concurrent = ok_value(get_usize(log, t, "max_concurrent"));
    proof {
        lemma_step_read(l0, l_max_concurrent, (t.path(), "max_concurrent"@, ReadValue::Size(max_concurrent)));
    }
    let ghost l_dependency_timeout_seconds = log.reads();
    let dependency_timeout_seconds = ok_value(get_u64(log, t, "dependency_timeout_seconds"));
    proof {
        lemma_step_read(l0, l_dependency_timeout_seconds, (t.path(), "dependency_timeout_seconds"@, ReadValue::Big(dependency_timeout_seconds)));
    }
    let ghost l_failure_strategy = log.reads();
    let failure_strategy = ok_value(get_string(log, t, "failure_strategy"));
    proof {
        lemma_step_read(l0, l_failure_strategy, (t.path(), "failure_strategy"@, ReadValue::Text(failure_strategy)));
    }
    ParallelFields { enabled, max_concurrent, dependency_timeout_seconds, failure_strategy }
}

/// The fields of a `config` table.
fn read_config_fields(log: &mut ReadLog, t: &LuaTable) -> (r: ConfigFields)
    ensures
        extends(old(log).reads(), final(log).reads()),
        config_fields_read(final(log).reads(), t.path(), r),
{
    let ghost l0 = log.reads();
    proof {
        lemma_extends_refl(l0);
    }
    let ghost l_timeout_seconds = log.reads();
    let timeout_seconds = ok_value(get_u64(log, t, "timeout_seconds"));
    proof {
        lemma_step_read(l0, l_timeout_seconds, (t.path(), "timeout_seconds"@, ReadValue::Big(timeout_seconds)));
    }
    let ghost l_continue_on_error = log.reads();
    let continue_on_error = ok_value(get_bool(log, t, "continue_on_error"));
    proof {
        lemma_step_read(l0, l_continue_on_error, (t.path(), "continue_on_error"@, ReadValue::Flag(continue_on_error)));
    }
    let ghost l_working_directory = log.reads();
    let working_directory = ok_value(get_string(log, t, "working_directory"));
    proof {
        lemma_step_read(l0, l_working_directory, (t.path(), "working_directory"@, ReadValue::Text(working_directory)));
    }
    let ghost l_global_env = log.reads();
    let global_env = ok_value(get_pairs(log, t, "global_env"));
    proof {
        lemma_step_read(l0, l_global_env, (t.path(), "global_env"@, ReadValue::Pairs(global_env)));
    }
    let ghost l_max_memory_bytes = log.reads();
    let max_memory_bytes = ok_value(get_u64(log, t, "max_memory_bytes"));
    proof {
        lemma_step_read(l0, l_max_memory_bytes, (t.path(), "max_memory_bytes"@, ReadValue::Big(max_memory_bytes)));
    }
    let ghost l_verbose = log.reads();
    let verbose = ok_value(get_bool(log, t, "verbose"));
    proof {
        lemma_step_read(l0, l_verbose, (t.path(), "verbose"@, ReadValue::Flag(verbose)));
    }
    let ghost l_parallel = log.reads();
    let parallel = match get_table(log, t, "parallel") {
        Ok(c) => {
            let ghost l_mid = log.reads();
            proof {
                lemma_step_read(l0, l_parallel, (t.path(), "parallel"@, ReadValue::Table(true)));
            }
            let f = read_parallel_fields(log, &c);
            proof {
                lemma_step_nested(l0, l_mid, log.reads());
            }
            Some(f)
        },
        Err(_) => {
            proof {
                lemma_step_read(l0, l_parallel, (t.path(), "parallel"@, ReadValue::Table(false)));
            }
            None
        },
    };
    ConfigFields { timeout_seconds, continue_on_error, working_directory, global_env, max_memory_bytes, verbose, parallel }
}

/// The fields of a step table.
fn read_step_fields(log: &mut ReadLog, t: &LuaTable) -> (r: StepFields)
    ensures
        extends(old(log).reads(), final(log).reads()),
        step_fields_read(final(log).reads(), t.path(), r),
{
    let ghost l0 = log.reads();
    proof {
        lemma_extends_refl(l0);
    }
    let ghost l_name = log.reads();
    let name = ok_value(get_string(log, t, "name"));
    proof {
        lemma_step_read(l0, l_name, (t.path(), "name"@, ReadValue::Text(name)));
    }
    let ghost l_description = log.reads();
    let description = ok_value(get_string(log, t, "description"));
    proof {
        lemma_step_read(l0, l_description, (t.path(), "description"@, ReadValue::Text(description)));
    }
    let ghost l_condition = log.reads();
    let condition = ok_value(get_string(log, t, "condition"));
    proof {
        lemma_step_read(l0, l_condition, (t.path(), "condition"@, ReadValue::Text(condition)));
    }
    let ghost l_env = log.reads();
    let env = ok_value(get_pairs(log, t, "env"));
    proof {
        lemma_step_read(l0, l_env, (t.path(), "env"@, ReadValue::Pairs(env)));
    }
    let ghost l_parallel = log.reads();
    let parallel = ok_value(get_bool(log, t, "parallel"));
    proof {
        lemma_step_read(l0, l_parallel, (t.path(), "parallel"@, ReadValue::Flag(parallel)));
    }
    let ghost l_depends_on = log.reads();
    let depends_on = ok_value(get_strings(log, t, "depends_on"));
    proof {
        lemma_step_read(l0, l_depends_on, (t.path(), "depends_on"@, ReadValue::Texts(depends_on)));
    }
    let ghost l_critical = log.reads();
    let critical = ok_value(get_bool(log, t, "critical"));
    proof {
        lemma_step_read(l0, l_critical, (t.path(), "critical"@, ReadValue::Flag(critical)));
    }
    let ghost l_timeout = log.reads();
    let timeout = ok_value(get_u64(log, t, "timeout"));
    proof {
        lemma_step_read(l0, l_timeout, (t.path(), "timeout"@, ReadValue::Big(timeout)));
    }
    let ghost l_working_directory = log.reads();
    let working_directory = ok_value(get_string(log, t, "working_directory"));
    proof {
        lemma_step_read(l0, l_working_directory, (t.path(), "working_directory"@, ReadValue::Text(working_directory)));
    }
    let ghost l_metadata = log.reads();
    let metadata = ok_value(get_pairs(log, t, "metadata"));
    proof {
        lemma_step_read(l0, l_metadata, (t.path(), "metadata"@, ReadValue::Pairs(metadata)));
    }
    let ghost l_retry = log.reads();
    let retry = match get_table(log, t, "retry") {
        Ok(c) => {
            let ghost l_mid = log.reads();
            proof {
                lemma_step_read(l0, l_retry, (t.path(), "retry"@, ReadValue::Table(true)));
            }
            let f = read_retry_fields(log, &c);
            proof {
                lemma_step_nested(l0, l_mid, log.reads());
            }
            Some(f)
        },
        Err(_) => {
            proof {
                lemma_step_read(l0, l_retry, (t.path(), "retry"@, ReadValue::Table(false)));
            }
            None
        },
    };
    let ghost l_action = log.reads();
    let has_action = has_function(log, t, "action");
    proof {
        lemma_step_read(l0, l_action, (t.path(), "action"@, ReadValue::Function(has_action)));
    }
    StepFields {
        name,
        description,
        condition,
        env,
        parallel,
        depends_on,
        critical,
        timeout,
        working_directory,
        metadata,
        retry,
        has_action,
    }
}

/// The fields of a pipeline table.
fn read_pipeline_fields(log: &mut ReadLog, t: &LuaTable) -> (r: PipelineFields)
    ensures
        extends(old(log).reads(), final(log).reads()),
        pipeline_fields_read(final(log).reads(), t.path(), r),
{
    let ghost l0 = log.reads();
    proof {
        lemma_extends_refl(l0);
    }
    let ghost l_name = log.reads();
    let name = ok_value(get_string(log, t, "name"));
    proof {
        lemma_step_read(l0, l_name, (t.path(), "name"@, ReadValue::Text(name)));
    }
    let ghost l_description = log.reads();
    let description = ok_value(get_string(log, t, "description"));
    proof {
        lemma_step_read(l0, l_description, (t.path(), "description"@, ReadValue::Text(description)));
    }
    let ghost l_version = log.reads();
    let version = ok_value(get_string(log, t, "version"));
    proof {
        lemma_step_read(l0, l_version, (t.path(), "version"@, ReadValue::Text(version)));
    }
    let ghost l_env = log.reads();
    let env = ok_value(get_pairs(log, t, "env"));
    proof {
        lemma_step_read(l0, l_env, (t.path(), "env"@, ReadValue::Pairs(env)));
    }
    let ghost l_metadata = log.reads();
    let metadata = ok_value(get_pairs(log, t, "metadata"));
    proof {
        lemma_step_read(l0, l_metadata, (t.path(), "metadata"@, ReadValue::Pairs(metadata)));
    }
    let ghost l_config = log.reads();
    let config = match get_table(log, t, "config") {
        Ok(c) => {
            let ghost l_mid = log.reads();
            proof {
                lemma_step_read(l0, l_config, (t.path(), "config"@, ReadValue::Table(true)));
            }
            let f = read_config_fields(log, &c);
            proof {
                lemma_step_nested(l0, l_mid, log.reads());
            }
            Some(f)
        },
        Err(_) => {
            proof {
                lemma_step_read(l0, l_config, (t.path(), "config"@, ReadValue::Table(false)));
            }
            None
        },
    };
    let ghost l_steps = log.reads();
    let steps = match get_table(log, t, "steps") {
        Ok(c) => {
            let ghost l_mid = log.reads();
            proof {
                lemma_step_read(l0, l_steps, (t.path(), "steps"@, ReadValue::Table(true)));
            }
            let f = read_step_entries(log, &c);
            proof {
                lemma_step_nested(l0, l_mid, log.reads());
            }
            Some(f)
        },
        Err(_) => {
            proof {
                lemma_step_read(l0, l_steps, (t.path(), "steps"@, ReadValue::Table(false)));
            }
            None
        },
    };
    PipelineFields { name, description, version, env, metadata, config, steps }
}

impl PipelineParser {
    /// Parses a pipeline table: its name, description, version, environment,
    /// metadata, `config` table and `steps` list, each read under its own
    /// key (the reads are recorded in `log`).
    pub fn parse_pipeline_table(table: &LuaTable, log: &mut ReadLog) -> (r: Result<Pipeline, PipelineError>)
        ensures
            extends(old(log).reads(), final(log).reads()),
            exists|f: PipelineFields|
                #![trigger pipeline_built(f, r)]
                pipeline_fields_read(final(log).reads(), table.path(), f) && pipeline_built(f, r),
    {
        let f = read_pipeline_fields(log, table);
        let ghost g = f;
        let r = Self::pipeline_from_fields(f);
        assert(pipeline_built(g, r));
        r
    }

    /// Parses step `index` (counted from 1) of a pipeline from its table.
    pub fn parse_step_table(table: &LuaTable, log: &mut ReadLog, index: usize) -> (r: Result<PipelineStep, PipelineError>)
        ensures
            extends(old(log).reads(), final(log).reads()),
            exists|f: StepFields|
                #![trigger step_built(f, index as nat, r)]
                step_fields_read(final(log).reads(), table.path(), f) && step_built(f, index as nat, r),
    {
        let f = read_step_fields(log, table);
        let ghost g = f;
        let r = Self::step_from_fields(f, index);
        assert(step_built(g, index as nat, r));
        r
    }

    /// Parses a `config` table.
    pub fn parse_config_table(table: &LuaTable, log: &mut ReadLog) -> (r: Result<PipelineConfig, PipelineError>)
        ensures
            extends(old(log).reads(), final(log).reads()),
            r matches Ok(c) && exists|f: ConfigFields|
                #![trigger config_built(f, c)]
                config_fields_read(final(log).reads(), table.path(), f) && config_built(f, c),
    {
        let f = read_config_fields(log, table);
        let ghost g = f;
        let c = Self::config_from_fields(f);
        assert(config_built(g, c));
        Ok(c)
    }

    /// Parses a `parallel` table.
    pub fn parse_parallel_table(table: &LuaTable, log: &mut ReadLog) -> (r: Result<ParallelConfig, PipelineError>)
        ensures
            extends(old(log).reads(), final(log).reads()),
            r matches Ok(c) && exists|f: ParallelFields|
                #![trigger parallel_built(f, c)]
                parallel_fields_read(final(log).reads(), table.path(), f) && parallel_built(f, c),
    {
        let f = read_parallel_fields(log, table);
        let ghost g = f;
        let c = Self::parallel_from_fields(f);
        assert(parallel_built(g, c));
        Ok(c)
    }

    /// Parses a `retry` table.
    pub fn parse_retry_table(table: &LuaTable, log: &mut ReadLog) -> (r: Result<RetryConfig, PipelineError>)
        ensures
            extends(old(log).reads(), final(log).reads()),
            exists|f: RetryFields|
                #![trigger retry_built(f, r)]
                retry_fields_read(final(log).reads(), table.path(), f) && retry_built(f, r),
    {
        let f = read_retry_fields(log, table);
        let ghost g = f;
        let r = Self::retry_from_fields(f);
        assert(retry_built(g, r));
        r
    }

    /// Parses a `conditions` list: a Lua error when its length cannot be
    /// read, else the conditions of its entries.
    pub fn parse_retry_conditions(table: &LuaTable, log: &mut ReadLog) -> (r: Result<Vec<RetryCondition>, PipelineError>)
        ensures
            extends(old(log).reads(), final(log).reads()),
            exists|c: Result<Vec<ConditionEntry>, mlua::Error>|
                #![trigger conditions_read(final(log).reads(), table.path(), c)]
                conditions_read(final(log).reads(), table.path(), c) && match c {
                    Err(e) => r == Err::<Vec<RetryCondition>, PipelineError>(PipelineError::LuaError(e)),
                    Ok(v) => conditions_result(v@, r),
                },
    {
        let c = read_condition_entries(log, table);
        match c {
            Ok(entries) => {
                let ghost g = entries@;
                let r = Self::conditions_from_entries(entries);
                assert(conditions_result(g, r));
                r
            },
            Err(e) => Err(PipelineError::LuaError(e)),
        }
    }

    /// Parses a retry condition written as a table: its `exit_codes`,
    /// `error_pattern` and `lua_condition` fields, in that order of
    /// precedence.
    pub fn parse_retry_condition_table(table: &LuaTable, log: &mut ReadLog) -> (r: Result<RetryCondition, PipelineError>)
        ensures
            extends(old(log).reads(), final(log).reads()),
            exists|ec: Option<Vec<i32>>, ep: Option<String>, lc: Option<String>|
                #![trigger condition_table_built(ec, ep, lc, r)]
                {
                    &&& was_read(final(log).reads(), table.path(), "exit_codes"@, ReadValue::Codes(ec))
                    &&& was_read(final(log).reads(), table.path(), "error_pattern"@, ReadValue::Text(ep))
                    &&& was_read(final(log).reads(), table.path(), "lua_condition"@, ReadValue::Text(lc))
                    &&& condition_table_built(ec, ep, lc, r)
                },
    {
        let ghost l0 = log.reads();
        let ghost p = table.path();
        proof {
            lemma_extends_refl(l0);
        }
        let ghost la = log.reads();
        let ec = ok_value(get_codes(log, table, "exit_codes"));
        proof {
            lemma_step_read(l0, la, (p, "exit_codes"@, ReadValue::Codes(ec)));
        }
        let ghost lb = log.reads();
        let ep = ok_value(get_string(log, table, "error_pattern"));
        proof {
            lemma_step_read(l0, lb, (p, "error_pattern"@, ReadValue::Text(ep)));
        }
        let ghost lc0 = log.reads();
        let lc = ok_value(get_string(log, table, "lua_condition"));
        proof {
            lemma_step_read(l0, lc0, (p, "lua_condition"@, ReadValue::Text(lc)));
        }
        let ghost (g1, g2, g3) = (ec, ep, lc);
        let r = Self::condition_from_table(ec, ep, lc);
        assert(condition_table_built(g1, g2, g3, r));
        r
    }
}

} // verus!
