//! The `assert` module of the Lua scripting API: assertions that raise a Lua
//! error carrying a message when they fail.
//!
//! The checks and their messages are plain functions with exact contracts;
//! the Lua-facing functions convert their arguments and call them.
use vstd::prelude::*;
use crate::text::{seq_contains, str_contains};

verus! {

/// The Lua interpreter.
#[verifier::external_type_specification]
#[verifier::external_body]
pub struct ExLua(mlua::Lua);

/// A value of the Lua interpreter.
#[verifier::external_type_specification]
#[verifier::external_body]
pub struct ExLuaValue(mlua::Value);

/// A function of the Lua interpreter.
#[verifier::external_type_specification]
#[verifier::external_body]
pub struct ExLuaFunction(mlua::Function);

/// The error of a regular expression that does not compile.
#[verifier::external_type_specification]
#[verifier::external_body]
pub struct ExRegexError(regex::Error);

/// The text of an optional string slice.
pub open spec fn text_opt(o: Option<&str>) -> Option<Seq<char>> {
    match o {
        Some(s) => Some(s@),
        None => None,
    }
}

/// The message of a failed assertion: the custom message, `": "` and the
/// default message; the default message alone without a custom one.
pub open spec fn assertion_text(default_msg: Seq<char>, custom: Option<Seq<char>>) -> Seq<char> {
    match custom {
        Some(m) => m + ": "@ + default_msg,
        None => default_msg,
    }
}

/// `r` fails with the message `default_msg` under the custom message.
pub open spec fn fails_with(r: Result<(), String>, default_msg: Seq<char>, custom: Option<Seq<char>>) -> bool {
    r matches Err(m) && m@ == assertion_text(default_msg, custom)
}

/// Builds the message of a failed assertion.
pub fn create_assertion_error(default_msg: &str, custom_msg: Option<&str>) -> (r: String)
    ensures
        r@ == assertion_text(default_msg@, text_opt(custom_msg)),
{
    match custom_msg {
        Some(m) => {
            let mut s = m.to_owned();
            s.append(": ");
            s.append(default_msg);
            s
        },
        None => default_msg.to_owned(),
    }
}

/// The optional custom message as a slice.
fn custom_slice(custom: &Option<String>) -> (r: Option<&str>)
    ensures
        text_opt(r) == match custom {
            Some(s) => Some(s@),
            None => None::<Seq<char>>,
        },
{
    match custom {
        Some(s) => Some(s.as_str()),
        None => None,
    }
}

/// Check of `is_true`: passes when `cond` holds.
pub fn check_true(cond: bool, custom: Option<&str>) -> (r: Result<(), String>)
    ensures
        cond ==> r is Ok,
        !cond ==> fails_with(r, "Assertion failed: condition is false"@, text_opt(custom)),
{
    if cond {
        Ok(())
    } else {
        Err(create_assertion_error("Assertion failed: condition is false", custom))
    }
}

/// Check of `not_nil`: passes when the value is not nil.
pub fn check_not_nil(is_nil: bool, custom: Option<&str>) -> (r: Result<(), String>)
    ensures
        !is_nil ==> r is Ok,
        is_nil ==> fails_with(r, "Assertion failed: value is nil"@, text_opt(custom)),
{
    if is_nil {
        Err(create_assertion_error("Assertion failed: value is nil", custom))
    } else {
        Ok(())
    }
}

/// Check of `is_nil`: passes when the value is nil.
pub fn check_nil(is_nil: bool, custom: Option<&str>) -> (r: Result<(), String>)
    ensures
        is_nil ==> r is Ok,
        !is_nil ==> fails_with(r, "Assertion failed: value is not nil"@, text_opt(custom)),
{
    if is_nil {
        Ok(())
    } else {
        Err(create_assertion_error("Assertion failed: value is not nil", custom))
    }
}

/// Check of `equals`: passes when the values are equal; otherwise the
/// message shows both values.
pub fn check_equals(equal: bool, left: &str, right: &str, custom: Option<&str>) -> (r: Result<(), String>)
    ensures
        equal ==> r is Ok,
        !equal ==> fails_with(
            r,
            "Assertion failed: "@ + left@ + " != "@ + right@,
            text_opt(custom),
        ),
{
    if equal {
        Ok(())
    } else {
        let mut d = "Assertion failed: ".to_owned();
        d.append(left);
        d.append(" != ");
        d.append(right);
        Err(create_assertion_error(d.as_str(), custom))
    }
}

/// Message of a failed `str_contains` on two strings.
pub open spec fn not_contained_text(haystack: Seq<char>, needle: Seq<char>) -> Seq<char> {
    "Assertion failed: '"@ + haystack + "' does not contain '"@ + needle + "'"@
}

/// Check of `str_contains`: both arguments must be strings, and the first
/// must contain the second.
pub fn check_str_contains(haystack: Option<&str>, needle: Option<&str>, custom: Option<&str>) -> (r: Result<(), String>)
    ensures
        match (haystack, needle) {
            (Some(h), Some(n)) => if seq_contains(h@, n@) {
                r is Ok
            } else {
                fails_with(r, not_contained_text(h@, n@), text_opt(custom))
            },
            _ => fails_with(r, "Assertion failed: both arguments must be strings"@, text_opt(custom)),
        },
{
    match (haystack, needle) {
        (Some(h), Some(n)) => {
            if str_contains(h, n) {
                Ok(())
            } else {
                let mut d = "Assertion failed: '".to_owned();
                d.append(h);
                d.append("' does not contain '");
                d.append(n);
                d.append("'");
                Err(create_assertion_error(d.as_str(), custom))
            }
        },
        _ => Err(create_assertion_error("Assertion failed: both arguments must be strings", custom)),
    }
}

/// Whether the regex crate accepts `pattern`.
pub uninterp spec fn regex_accepts(pattern: Seq<char>) -> bool;

/// Whether the regular expression `pattern`, as the regex crate reads it,
/// matches somewhere in `text`.
pub uninterp spec fn regex_matches(pattern: Seq<char>, text: Seq<char>) -> bool;

/// Compiles `pattern` with `regex::Regex::new` and, when it compiles, asks
/// `Regex::is_match` whether it matches `text`.  It fails exactly when the
/// crate does not accept the pattern; the answer is the crate's match.
#[verifier::external_body]
fn regex_match(pattern: &str, text: &str) -> (r: Result<bool, regex::Error>)
    ensures
        r is Ok <==> regex_accepts(pattern@),
        r matches Ok(b) ==> b == regex_matches(pattern@, text@),
{
    match regex::Regex::new(pattern) {
        Ok(re) => Ok(re.is_match(text)),
        Err(e) => Err(e),
    }
}

/// The text of a pattern error, by its `Display`.  Nothing is stated of it.
#[verifier::external_body]
fn regex_error_text(e: &regex::Error) -> (r: String) {
    format!("{}", e)
}

/// Message of a failed `str_matches` on two strings.
pub open spec fn not_matched_text(text: Seq<char>, pattern: Seq<char>) -> Seq<char> {
    "Assertion failed: '"@ + text + "' does not match regex '"@ + pattern + "'"@
}

/// Check of `str_matches`: both arguments must be strings and the second a
/// regular expression that the first matches.  When the pattern does not
/// compile the message starts `Invalid regex: ` and goes on with the
/// crate's explanation.
pub fn check_str_matches(text: Option<&str>, pattern: Option<&str>, custom: Option<&str>) -> (r: Result<(), String>)
    ensures
        match (text, pattern) {
            (Some(t), Some(p)) => {
                &&& !regex_accepts(p@) ==> (r matches Err(m) && exists|why: Seq<char>|
                    m@ == assertion_text("Invalid regex: "@ + why, text_opt(custom)))
                &&& regex_accepts(p@) && regex_matches(p@, t@) ==> r is Ok
                &&& regex_accepts(p@) && !regex_matches(p@, t@) ==> fails_with(
                    r,
                    not_matched_text(t@, p@),
                    text_opt(custom),
                )
            },
            _ => fails_with(r, "Assertion failed: both arguments must be strings"@, text_opt(custom)),
        },
{
    match (text, pattern) {
        (Some(t), Some(p)) => {
            match regex_match(p, t) {
                Ok(matched) => {
                    if matched {
                        Ok(())
                    } else {
                        let mut d = "Assertion failed: '".to_owned();
                        d.append(t);
                        d.append("' does not match regex '");
                        d.append(p);
                        d.append("'");
                        Err(create_assertion_error(d.as_str(), custom))
                    }
                },
                Err(e) => {
                    let why = regex_error_text(&e);
                    let mut d = "Invalid regex: ".to_owned();
                    d.append(why.as_str());
                    Err(create_assertion_error(d.as_str(), custom))
                },
            }
        },
        _ => Err(create_assertion_error("Assertion failed: both arguments must be strings", custom)),
    }
}

/// Check of `table_has_key` once the key lookup is known: the first argument
/// must be a table (`has_key` is `None` otherwise) that holds the key.
pub fn check_table_has_key(has_key: Option<bool>, custom: Option<&str>) -> (r: Result<(), String>)
    ensures
        match has_key {
            Some(true) => r is Ok,
            Some(false) => fails_with(r, "Assertion failed: table missing key"@, text_opt(custom)),
            None => fails_with(r, "Assertion failed: not a table"@, text_opt(custom)),
        },
{
    match has_key {
        Some(true) => Ok(()),
        Some(false) => Err(create_assertion_error("Assertion failed: table missing key", custom)),
        None => Err(create_assertion_error("Assertion failed: not a table", custom)),
    }
}

/// Check of `command_exists` once the lookup on the PATH is known: `found`
/// is whether the lookup succeeded, or the reason it could not be made.
pub fn check_command_exists(command: &str, found: Result<bool, String>, custom: Option<&str>) -> (r: Result<(), String>)
    ensures
        match found {
            Ok(true) => r is Ok,
            Ok(false) => fails_with(
                r,
                "Assertion failed: command '"@ + command@ + "' not found in PATH"@,
                text_opt(custom),
            ),
            Err(why) => fails_with(
                r,
                "Assertion failed: unable to check command '"@ + command@ + "': "@ + why@,
                text_opt(custom),
            ),
        },
{
    match found {
        Ok(true) => Ok(()),
        Ok(false) => {
            let mut d = "Assertion failed: command '".to_owned();
            d.append(command);
            d.append("' not found in PATH");
            Err(create_assertion_error(d.as_str(), custom))
        },
        Err(why) => {
            let mut d = "Assertion failed: unable to check command '".to_owned();
            d.append(command);
            d.append("': ");
            d.append(why.as_str());
            Err(create_assertion_error(d.as_str(), custom))
        },
    }
}

/// What a Lua value holds as a string: `None` when it is not a string,
/// `Some(None)` when it is one whose bytes are not valid UTF-8, and
/// `Some(Some(text))` otherwise.  Lua strings cannot change, so this is a
/// function of the value.
pub uninterp spec fn lua_string_of(v: mlua::Value) -> Option<Option<Seq<char>>>;

/// Whether a Lua value is `nil`.
pub uninterp spec fn lua_value_is_nil(v: mlua::Value) -> bool;

/// Whether a Lua value is a table.
pub uninterp spec fn lua_value_is_table(v: mlua::Value) -> bool;

/// Whether mlua's `==` finds two values equal.
pub uninterp spec fn lua_values_eq(a: mlua::Value, b: mlua::Value) -> bool;

/// The runtime error `mlua::Error::RuntimeError` carrying a message.
pub uninterp spec fn lua_runtime_error_of(msg: Seq<char>) -> mlua::Error;

/// The text of a Lua string value: `None` for another kind of value, an
/// error when the string is not valid UTF-8.  By `Value::String` and
/// `LuaString::to_str`.
#[verifier::external_body]
fn lua_string_text(v: &mlua::Value) -> (r: Option<Result<String, mlua::Error>>)
    ensures
        match r {
            None => lua_string_of(*v) is None,
            Some(Ok(s)) => lua_string_of(*v) == Some(Some(s@)),
            Some(Err(_)) => lua_string_of(*v) == Some(None::<Seq<char>>),
        },
{
    match v {
        mlua::Value::String(s) => Some(s.to_str().map(|b| b.to_string())),
        _ => None,
    }
}

/// Whether a Lua value is nil, by its `Value::Nil` variant.
#[verifier::external_body]
fn lua_is_nil(v: &mlua::Value) -> (r: bool)
    ensures
        r == lua_value_is_nil(*v),
{
    match v {
        mlua::Value::Nil => true,
        _ => false,
    }
}

/// The table held by a Lua value, if it is one (`Value::Table`).
#[verifier::external_body]
fn lua_as_table(v: mlua::Value) -> (r: Option<mlua::Table>)
    ensures
        r is Some <==> lua_value_is_table(v),
{
    match v {
        mlua::Value::Table(t) => Some(t),
        _ => None,
    }
}

/// `Value`'s `==`.
#[verifier::external_body]
fn lua_values_equal(a: &mlua::Value, b: &mlua::Value) -> (r: bool)
    ensures
        r == lua_values_eq(*a, *b),
{
    a == b
}

/// `Value`'s `Debug` text.  Nothing is stated of it: for a table or a
/// function it holds an address.
#[verifier::external_body]
fn lua_value_debug(v: &mlua::Value) -> (r: String) {
    format!("{:?}", v)
}

/// `Table::contains_key`.  Nothing is stated of the answer: it depends on
/// what the table holds now, which Lua code may change.
#[verifier::external_body]
fn lua_contains_key(t: &mlua::Table, key: mlua::Value) -> (r: Result<bool, mlua::Error>) {
    t.contains_key(key)
}

/// A Lua runtime error carrying `msg`, `mlua::Error::RuntimeError`.
#[verifier::external_body]
pub(crate) fn lua_runtime_error(msg: String) -> (r: mlua::Error)
    ensures
        r == lua_runtime_error_of(msg@),
{
    mlua::Error::RuntimeError(msg)
}

/// The text of an assertion's custom message argument: its text when it is
/// a string with valid UTF-8, nothing otherwise.
pub open spec fn custom_text(message: Option<mlua::Value>) -> Option<Seq<char>> {
    match message {
        Some(v) => match lua_string_of(v) {
            Some(Some(t)) => Some(t),
            _ => None,
        },
        None => None,
    }
}

/// The custom message argument of an assertion: its text when it is a
/// string, nothing otherwise.
fn custom_message(message: Option<mlua::Value>) -> (r: Option<String>)
    ensures
        match r {
            Some(s) => custom_text(message) == Some(s@),
            None => custom_text(message) is None,
        },
{
    match message {
        Some(v) => match lua_string_text(&v) {
            Some(Ok(s)) => Some(s),
            _ => None,
        },
        None => None,
    }
}

/// The Lua result of a check that passes when `ok`, failing otherwise with
/// the runtime error of the assertion message.
pub open spec fn check_result(ok: bool, default_msg: Seq<char>, custom: Option<Seq<char>>) -> mlua::Result<()> {
    if ok {
        Ok(())
    } else {
        Err(lua_runtime_error_of(assertion_text(default_msg, custom)))
    }
}

/// A check's outcome as a Lua result.
fn lua_outcome(r: Result<(), String>) -> (o: mlua::Result<()>)
    ensures
        match r {
            Ok(()) => o == Ok::<(), mlua::Error>(()),
            Err(m) => o == Err::<(), mlua::Error>(lua_runtime_error_of(m@)),
        },
{
    match r {
        Ok(()) => Ok(()),
        Err(m) => Err(lua_runtime_error(m)),
    }
}

/// `assert.equals(a, b [, message])`: passes when mlua finds the values
/// equal; otherwise fails with the message of `check_equals` on their debug
/// texts (which hold addresses and are not stated).
pub fn assert_equals(_lua: &mlua::Lua, args: (mlua::Value, mlua::Value, Option<mlua::Value>)) -> (r: mlua::Result<()>)
    ensures
        r is Ok <==> lua_values_eq(args.0, args.1),
        !lua_values_eq(args.0, args.1) ==> exists|left: Seq<char>, right: Seq<char>|
            r == #[trigger] check_result(false, "Assertion failed: "@ + left + " != "@ + right, custom_text(args.2)),
{
    let (a, b, message) = args;
    let equal = lua_values_equal(&a, &b);
    if equal {
        Ok(())
    } else {
        let ghost m = message;
        let custom = custom_message(message);
        let left = lua_value_debug(&a);
        let right = lua_value_debug(&b);
        let r = lua_outcome(check_equals(false, left.as_str(), right.as_str(), custom_slice(&custom)));
        proof {
            assert(r == check_result(false, "Assertion failed: "@ + left@ + " != "@ + right@, custom_text(m)));
        }
        r
    }
}

/// `assert.not_nil(value [, message])`: passes when the value is not nil and
/// otherwise fails with the message of `check_not_nil`.
pub fn assert_not_nil(_lua: &mlua::Lua, args: (mlua::Value, Option<mlua::Value>)) -> (r: mlua::Result<()>)
    ensures
        r == check_result(!lua_value_is_nil(args.0), "Assertion failed: value is nil"@, custom_text(args.1)),
{
    let (val, message) = args;
    let is_nil = lua_is_nil(&val);
    let custom = if is_nil {
        custom_message(message)
    } else {
        None
    };
    lua_outcome(check_not_nil(is_nil, custom_slice(&custom)))
}

/// `assert.is_nil(value [, message])`: passes when the value is nil and
/// otherwise fails with the message of `check_nil`.
pub fn assert_nil(_lua: &mlua::Lua, args: (mlua::Value, Option<mlua::Value>)) -> (r: mlua::Result<()>)
    ensures
        r == check_result(lua_value_is_nil(args.0), "Assertion failed: value is not nil"@, custom_text(args.1)),
{
    let (val, message) = args;
    let is_nil = lua_is_nil(&val);
    let custom = if is_nil {
        None
    } else {
        custom_message(message)
    };
    lua_outcome(check_nil(is_nil, custom_slice(&custom)))
}

/// `assert.is_true(condition [, message])`: passes when the condition holds
/// and otherwise fails with the message of `check_true`.
pub fn assert_true(_lua: &mlua::Lua, args: (bool, Option<mlua::Value>)) -> (r: mlua::Result<()>)
    ensures
        r == check_result(args.0, "Assertion failed: condition is false"@, custom_text(args.1)),
{
    let (cond, message) = args;
    let custom = if cond {
        None
    } else {
        custom_message(message)
    };
    lua_outcome(check_true(cond, custom_slice(&custom)))
}

/// The texts of two Lua values that must both be strings: `None` when one is
/// not a string, an error when one is not valid UTF-8.
fn two_strings(a: &mlua::Value, b: &mlua::Value) -> (r: mlua::Result<Option<(String, String)>>)
    ensures
        match (lua_string_of(*a), lua_string_of(*b)) {
            (Some(Some(x)), Some(Some(y))) => r matches Ok(Some((s, t))) && s@ == x && t@ == y,
            (Some(_), Some(_)) => r is Err,
            _ => r matches Ok(None),
        },
{
    match (lua_string_text(a), lua_string_text(b)) {
        (Some(x), Some(y)) => {
            let x = match x {
                Ok(s) => s,
                Err(e) => {
                    return Err(e);
                },
            };
            let y = match y {
                Ok(s) => s,
                Err(e) => {
                    return Err(e);
                },
            };
            Ok(Some((x, y)))
        },
        _ => Ok(None),
    }
}

/// `assert.str_contains(haystack, needle [, message])`: when both values are
/// strings, it passes exactly when the first contains the second, and fails
/// with the message of `check_str_contains` otherwise; it fails when either
/// is not a string, or is a string that is not valid UTF-8.
pub fn assert_str_contains(_lua: &mlua::Lua, args: (mlua::Value, mlua::Value, Option<mlua::Value>)) -> (r: mlua::Result<()>)
    ensures
        match (lua_string_of(args.0), lua_string_of(args.1)) {
            (Some(Some(h)), Some(Some(n))) => r == check_result(
                seq_contains(h, n),
                not_contained_text(h, n),
                custom_text(args.2),
            ),
            (Some(_), Some(_)) => r is Err,
            _ => r == check_result(false, "Assertion failed: both arguments must be strings"@, custom_text(args.2)),
        },
{
    let (haystack, needle, message) = args;
    let custom = custom_message(message);
    let r = match two_strings(&haystack, &needle) {
        Ok(Some((h, n))) => check_str_contains(Some(h.as_str()), Some(n.as_str()), custom_slice(&custom)),
        Ok(None) => check_str_contains(None, None, custom_slice(&custom)),
        Err(e) => {
            return Err(e);
        },
    };
    lua_outcome(r)
}

/// `assert.str_matches(text, pattern [, message])`: when both values are
/// strings and the pattern compiles, it passes exactly when the pattern
/// matches the text and fails with the message of `check_str_matches`
/// otherwise; a pattern that does not compile fails with `Invalid regex: `
/// and the crate's explanation; it fails when either value is not a string,
/// or is a string that is not valid UTF-8.
pub fn assert_str_matches(_lua: &mlua::Lua, args: (mlua::Value, mlua::Value, Option<mlua::Value>)) -> (r: mlua::Result<()>)
    ensures
        match (lua_string_of(args.0), lua_string_of(args.1)) {
            (Some(Some(t)), Some(Some(p))) => if regex_accepts(p) {
                r == check_result(regex_matches(p, t), not_matched_text(t, p), custom_text(args.2))
            } else {
                exists|why: Seq<char>| r == #[trigger] check_result(false, "Invalid regex: "@ + why, custom_text(args.2))
            },
            (Some(_), Some(_)) => r is Err,
            _ => r == check_result(false, "Assertion failed: both arguments must be strings"@, custom_text(args.2)),
        },
{
    let (text, pattern, message) = args;
    let custom = custom_message(message);
    let r = match two_strings(&text, &pattern) {
        Ok(Some((t, p))) => {
            let cs = custom_slice(&custom);
            let c = check_str_matches(Some(t.as_str()), Some(p.as_str()), cs);
            proof {
                if !regex_accepts(p@) {
                    let m = c->Err_0;
                    let why = choose|why: Seq<char>| m@ == assertion_text("Invalid regex: "@ + why, text_opt(cs));
                    assert(Err::<(), mlua::Error>(lua_runtime_error_of(m@)) == check_result(
                        false,
                        "Invalid regex: "@ + why,
                        custom_text(args.2),
                    ));
                }
            }
            c
        },
        Ok(None) => check_str_matches(None, None, custom_slice(&custom)),
        Err(e) => {
            return Err(e);
        },
    };
    lua_outcome(r)
}

/// `assert.table_has_key(table, key [, message])`: fails with `not a table`
/// when the first value is not a table; otherwise passes only when the
/// table holds the key.  Whether it does is not stated: it depends on what
/// the table holds now.
pub fn assert_table_has_key(_lua: &mlua::Lua, args: (mlua::Value, mlua::Value, Option<mlua::Value>)) -> (r: mlua::Result<()>)
    ensures
        !lua_value_is_table(args.0) ==> r == check_result(false, "Assertion failed: not a table"@, custom_text(args.2)),
        r is Ok ==> lua_value_is_table(args.0),
{
    let (table, key, message) = args;
    let custom = custom_message(message);
    let has_key = match lua_as_table(table) {
        Some(t) => match lua_contains_key(&t, key) {
            Ok(b) => Some(b),
            Err(e) => {
                return Err(e);
            },
        },
        None => None,
    };
    lua_outcome(check_table_has_key(has_key, custom_slice(&custom)))
}

/// `Lua::create_table`.
#[verifier::external_body]
pub(crate) fn lua_create_table(lua: &mlua::Lua) -> (r: Result<mlua::Table, mlua::Error>) {
    lua.create_table()
}

/// `Table::set` of a function under a name.
#[verifier::external_body]
pub(crate) fn lua_set_function(t: &mlua::Table, name: &str, f: mlua::Function) -> (r: Result<(), mlua::Error>) {
    t.set(name, f)
}

/// `Lua::create_function` of a function of the scripting API.
#[verifier::external_body]
pub(crate) fn lua_create_function<A, R, F>(lua: &mlua::Lua, f: F) -> (r: Result<mlua::Function, mlua::Error>) where
    F: Fn(&mlua::Lua, A) -> mlua::Result<R> + Send + 'static,
    A: mlua::FromLuaMulti,
    R: mlua::IntoLuaMulti,
 {
    lua.create_function(f)
}

/// The `assert` module of the Lua scripting API.
pub struct Assert;

impl Assert {
    /// The module table: `equals`, `not_nil`, `is_nil`, `is_true`,
    /// `str_contains`, `str_matches` and `table_has_key`.
    pub fn create(lua: &mlua::Lua) -> (r: mlua::Result<mlua::Table>) {
        let tbl = lua_create_table(lua)?;
        lua_set_function(&tbl, "equals", lua_create_function(lua, assert_equals)?)?;
        lua_set_function(&tbl, "not_nil", lua_create_function(lua, assert_not_nil)?)?;
        lua_set_function(&tbl, "is_nil", lua_create_function(lua, assert_nil)?)?;
        lua_set_function(&tbl, "is_true", lua_create_function(lua, assert_true)?)?;
        lua_set_function(&tbl, "str_contains", lua_create_function(lua, assert_str_contains)?)?;
        lua_set_function(&tbl, "str_matches", lua_create_function(lua, assert_str_matches)?)?;
        lua_set_function(&tbl, "table_has_key", lua_create_function(lua, assert_table_has_key)?)?;
        Ok(tbl)
    }
}

} // verus!
