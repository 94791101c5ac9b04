use gaiaci::lua_assert::{
    check_command_exists, check_equals, check_str_contains, check_str_matches, check_table_has_key,
    create_assertion_error, Assert,
};
use mlua::{Lua, Result as LuaResult, Value};

fn create_test_lua() -> LuaResult<Lua> {
    let lua = Lua::new();
    lua.load_std_libs(mlua::StdLib::ALL_SAFE)?;
    let assert_module = Assert::create(&lua)?;
    lua.globals().set("assert", assert_module)?;
    Ok(lua)
}

fn execute_lua_code(lua: &Lua, code: &str) -> LuaResult<Value> {
    lua.load(code).eval()
}

#[test]
fn test_lua_assert_equals_integration() {
    let lua = create_test_lua().unwrap();

    let result = execute_lua_code(&lua, r#"
        assert.equals(42, 42)
        return "success"
    "#);
    assert!(result.is_ok());

    let result = execute_lua_code(&lua, r#"
        assert.equals(42, 43)
    "#);
    assert!(result.is_err());
}

#[test]
fn test_lua_string_assertions_workflow() {
    let lua = create_test_lua().unwrap();

    let result = execute_lua_code(&lua, r#"
        local text = "Hello Rust World"
        assert.str_contains(text, "Rust")
        assert.str_matches(text, "^Hello.*World$")
        return true
    "#);

    assert!(result.is_ok());
}

#[test]
fn test_lua_table_assertions() {
    let lua = create_test_lua().unwrap();

    let result = execute_lua_code(&lua, r#"
        local config = {
            name = "test",
            version = "1.0.0"
        }
        assert.table_has_key(config, "name")
        assert.equals(config.name, "test")
        return true
    "#);

    assert!(result.is_ok());
}

#[test]
fn test_complex_assertion_workflow() {
    let lua = create_test_lua().unwrap();

    let result = execute_lua_code(&lua, r#"
        -- Test a realistic CI scenario
        local build_info = {
            status = "success",
            artifacts = {"binary", "docs"},
            commit_hash = "abc123def"
        }

        -- Validate build info
        assert.not_nil(build_info)
        assert.table_has_key(build_info, "status")
        assert.equals(build_info.status, "success")
        assert.str_matches(build_info.commit_hash, "^[a-f0-9]+$")

        return "All assertions passed"
    "#);

    assert!(result.is_ok());
}

#[test]
fn test_lua_nil_assertions() {
    let lua = create_test_lua().unwrap();

    let result = execute_lua_code(&lua, r#"
        -- Test nil assertion
        assert.is_nil(nil)

        -- Test not_nil assertion
        assert.not_nil("hello")

        return true
    "#);

    assert!(result.is_ok());
}

#[test]
fn test_lua_boolean_assertions() {
    let lua = create_test_lua().unwrap();

    let result = execute_lua_code(&lua, r#"
        -- Test boolean assertions
        assert.is_true(true)

        -- Test with expressions
        assert.is_true(5 > 3)
        assert.is_true("hello" == "hello")

        return true
    "#);

    assert!(result.is_ok());
}

#[test]
fn test_lua_error_propagation() {
    let lua = create_test_lua().unwrap();

    let result = execute_lua_code(&lua, r#"
        assert.equals("hello", "world")
    "#);

    assert!(result.is_err());
    let error_msg = result.unwrap_err().to_string();
    assert!(error_msg.contains("Assertion failed"));
}

#[test]
fn test_regex_assertion_scenarios() {
    let lua = create_test_lua().unwrap();

    let result = execute_lua_code(&lua, r#"
        -- Test various regex patterns
        local version = "v1.2.3"
        assert.str_matches(version, "^v\\d+\\.\\d+\\.\\d+$")

        local email = "test@example.com"
        assert.str_matches(email, ".+@.+\\..+")

        local hash = "abc123def456"
        assert.str_matches(hash, "^[a-f0-9]+$")

        return true
    "#);

    assert!(result.is_ok());
}

#[test]
fn test_nested_table_assertions() {
    let lua = create_test_lua().unwrap();

    let result = execute_lua_code(&lua, r#"
        local config = {
            database = {
                host = "localhost",
                port = 5432
            },
            cache = {
                enabled = true,
                ttl = 3600
            }
        }

        -- Test nested structure
        assert.table_has_key(config, "database")
        assert.table_has_key(config.database, "host")
        assert.equals(config.database.host, "localhost")
        assert.is_true(config.cache.enabled)

        return true
    "#);

    assert!(result.is_ok());
}

#[test]
fn test_assert_equals_basic() {
    let lua = Lua::new();
    let assert = Assert::create(&lua).unwrap();
    let f: mlua::Function = assert.get("equals").unwrap();

    f.call::<()>((Value::Integer(42), Value::Integer(42))).unwrap();

    let result: mlua::Result<()> = f.call::<()>((Value::Integer(42), Value::Integer(43)));
    assert!(result.is_err());
}

#[test]
fn test_assert_not_nil_fail() {
    let lua = Lua::new();
    let assert = Assert::create(&lua).unwrap();
    let f: mlua::Function = assert.get("not_nil").unwrap();
    let result: mlua::Result<()> = f.call::<()>(Value::Nil);
    assert!(result.is_err());
    let err_msg = result.unwrap_err().to_string();
    assert!(err_msg.contains("value is nil"));
}

#[test]
fn test_assert_nil_fail() {
    let lua = Lua::new();
    let assert = Assert::create(&lua).unwrap();
    let f: mlua::Function = assert.get("is_nil").unwrap();
    let result: mlua::Result<()> = f.call::<()>(Value::String(lua.create_string("hello").unwrap()));
    assert!(result.is_err());
    let err_msg = result.unwrap_err().to_string();
    assert!(err_msg.contains("value is not nil"));
}

#[test]
fn test_assert_is_true_fail() {
    let lua = Lua::new();
    let assert = Assert::create(&lua).unwrap();
    let f: mlua::Function = assert.get("is_true").unwrap();
    let result: mlua::Result<()> = f.call::<()>(false);
    assert!(result.is_err());
    let err_msg = result.unwrap_err().to_string();
    assert!(err_msg.contains("condition is false"));
}

#[test]
fn test_assert_str_matches_invalid_regex() {
    let lua = Lua::new();
    let assert = Assert::create(&lua).unwrap();
    let f: mlua::Function = assert.get("str_matches").unwrap();
    let result: mlua::Result<()> = f.call::<()>((
        Value::String(lua.create_string("hello123").unwrap()),
        Value::String(lua.create_string(r"hello[").unwrap()),
    ));
    assert!(result.is_err());
    let err_msg = result.unwrap_err().to_string();
    assert!(err_msg.contains("Invalid regex"));
}

#[test]
fn test_assert_table_has_key_fail() {
    let lua = Lua::new();
    let assert = Assert::create(&lua).unwrap();
    let f: mlua::Function = assert.get("table_has_key").unwrap();
    let table = lua.create_table().unwrap();
    table.set("key1", 42).unwrap();
    let result: mlua::Result<()> = f.call::<()>((
        Value::Table(table.clone()),
        Value::String(lua.create_string("key2").unwrap()),
    ));
    assert!(result.is_err());
    let err_msg = result.unwrap_err().to_string();
    assert!(err_msg.contains("table missing key"));
}

#[test]
fn custom_message_leads_the_failure() {
    let lua = create_test_lua().unwrap();
    let err = execute_lua_code(&lua, r#"assert.is_true(false, "deploy gate")"#).unwrap_err();
    assert!(err.to_string().contains("deploy gate: Assertion failed: condition is false"));
}

#[test]
fn assertion_messages() {
    assert_eq!(create_assertion_error("base", None), "base");
    assert_eq!(create_assertion_error("base", Some("ctx")), "ctx: base");
    assert_eq!(
        check_str_contains(Some("rustacean"), Some("c++"), None),
        Err("Assertion failed: 'rustacean' does not contain 'c++'".to_string())
    );
    assert_eq!(
        check_str_contains(None, Some("x"), Some("m")),
        Err("m: Assertion failed: both arguments must be strings".to_string())
    );
    assert_eq!(check_equals(true, "a", "b", None), Ok(()));
    assert_eq!(
        check_equals(false, "Integer(1)", "Integer(2)", None),
        Err("Assertion failed: Integer(1) != Integer(2)".to_string())
    );
    assert_eq!(
        check_table_has_key(None, None),
        Err("Assertion failed: not a table".to_string())
    );
    assert_eq!(
        check_str_matches(Some("abc"), Some("^x"), None),
        Err("Assertion failed: 'abc' does not match regex '^x'".to_string())
    );
    assert_eq!(check_str_matches(Some("abc"), Some("^a"), None), Ok(()));
}

fn assert_fn(lua: &Lua, name: &str) -> mlua::Function {
    let assert = Assert::create(lua).unwrap();
    assert.get(name).unwrap()
}

fn lua_str(lua: &Lua, s: &str) -> Value {
    Value::String(lua.create_string(s).unwrap())
}

#[test]
fn test_assert_not_nil_pass() {
    let lua = Lua::new();
    let f = assert_fn(&lua, "not_nil");
    f.call::<()>(lua_str(&lua, "hello")).unwrap();
}

#[test]
fn test_assert_nil_pass() {
    let lua = Lua::new();
    let f = assert_fn(&lua, "is_nil");
    f.call::<()>(Value::Nil).unwrap();
}

#[test]
fn test_assert_is_true_pass() {
    let lua = Lua::new();
    let f = assert_fn(&lua, "is_true");
    f.call::<()>(true).unwrap();
}

#[test]
fn test_assert_equals_type_mismatch() {
    let lua = Lua::new();
    let f = assert_fn(&lua, "equals");
    let result: mlua::Result<()> = f.call::<()>((Value::Integer(1), lua_str(&lua, "1")));
    assert!(result.is_err());
    let err_msg = result.unwrap_err().to_string();
    assert!(err_msg.contains("Assertion failed"));
}

#[test]
fn test_assert_str_contains_pass() {
    let lua = Lua::new();
    let f = assert_fn(&lua, "str_contains");
    f.call::<()>((lua_str(&lua, "rustacean"), lua_str(&lua, "rust"))).unwrap();
}

#[test]
fn test_assert_str_contains_fail() {
    let lua = Lua::new();
    let f = assert_fn(&lua, "str_contains");
    let result: mlua::Result<()> = f.call::<()>((lua_str(&lua, "rustacean"), lua_str(&lua, "c++")));
    assert!(result.is_err());
    let err_msg = result.unwrap_err().to_string();
    assert!(err_msg.contains("Assertion failed"));
}

#[test]
fn test_assert_str_contains_type_mismatch() {
    let lua = Lua::new();
    let f = assert_fn(&lua, "str_contains");
    let result: mlua::Result<()> = f.call::<()>((Value::Integer(1), lua_str(&lua, "1")));
    assert!(result.is_err());
    let err_msg = result.unwrap_err().to_string();
    assert!(err_msg.contains("Assertion failed"));
}

#[test]
fn test_assert_str_matches_pass() {
    let lua = Lua::new();
    let f = assert_fn(&lua, "str_matches");
    f.call::<()>((lua_str(&lua, "hello123"), lua_str(&lua, r"hello\d+"))).unwrap();
}

#[test]
fn test_assert_str_matches_fail() {
    let lua = Lua::new();
    let f = assert_fn(&lua, "str_matches");
    let result: mlua::Result<()> = f.call::<()>((lua_str(&lua, "hello123"), lua_str(&lua, r"world\d+")));
    assert!(result.is_err());
    let err_msg = result.unwrap_err().to_string();
    assert!(err_msg.contains("Assertion failed"));
}

#[test]
fn test_assert_str_matches_type_mismatch() {
    let lua = Lua::new();
    let f = assert_fn(&lua, "str_matches");
    let result: mlua::Result<()> = f.call::<()>((Value::Integer(1), lua_str(&lua, "1")));
    assert!(result.is_err());
    let err_msg = result.unwrap_err().to_string();
    assert!(err_msg.contains("Assertion failed"));
}

#[test]
fn test_assert_table_has_key_pass() {
    let lua = Lua::new();
    let f = assert_fn(&lua, "table_has_key");
    let table = lua.create_table().unwrap();
    table.set("key1", 42).unwrap();
    f.call::<()>((Value::Table(table.clone()), lua_str(&lua, "key1"))).unwrap();
}

#[test]
fn test_assert_table_has_key_type_mismatch() {
    let lua = Lua::new();
    let f = assert_fn(&lua, "table_has_key");
    let result: mlua::Result<()> = f.call::<()>((Value::Integer(1), lua_str(&lua, "1")));
    assert!(result.is_err());
    let err_msg = result.unwrap_err().to_string();
    assert!(err_msg.contains("Assertion failed"));
}

#[test]
fn test_assert_equals_with_custom_message() {
    let lua = Lua::new();
    let f = assert_fn(&lua, "equals");
    let result: mlua::Result<()> = f.call::<()>((
        Value::Integer(42),
        Value::Integer(43),
        lua_str(&lua, "Expected values to be equal"),
    ));
    assert!(result.is_err());
    let err_msg = result.unwrap_err().to_string();
    assert!(err_msg.contains("Expected values to be equal"));
    assert!(err_msg.contains("Assertion failed"));
}

#[test]
fn test_assert_not_nil_with_custom_message() {
    let lua = Lua::new();
    let f = assert_fn(&lua, "not_nil");
    let result: mlua::Result<()> = f.call::<()>((Value::Nil, lua_str(&lua, "User ID should not be nil")));
    assert!(result.is_err());
    let err_msg = result.unwrap_err().to_string();
    assert!(err_msg.contains("User ID should not be nil"));
}

#[test]
fn test_assert_is_true_with_custom_message() {
    let lua = Lua::new();
    let f = assert_fn(&lua, "is_true");
    let result: mlua::Result<()> = f.call::<()>((false, lua_str(&lua, "Build should have succeeded")));
    assert!(result.is_err());
    let err_msg = result.unwrap_err().to_string();
    assert!(err_msg.contains("Build should have succeeded"));
}

#[test]
fn test_assert_str_contains_with_custom_message() {
    let lua = Lua::new();
    let f = assert_fn(&lua, "str_contains");
    let result: mlua::Result<()> = f.call::<()>((
        lua_str(&lua, "Error: Failed to connect"),
        lua_str(&lua, "SUCCESS"),
        lua_str(&lua, "Log should contain success message"),
    ));
    assert!(result.is_err());
    let err_msg = result.unwrap_err().to_string();
    assert!(err_msg.contains("Log should contain success message"));
}

#[test]
fn test_assert_str_matches_with_custom_message() {
    let lua = Lua::new();
    let f = assert_fn(&lua, "str_matches");
    let result: mlua::Result<()> = f.call::<()>((
        lua_str(&lua, "invalid_version"),
        lua_str(&lua, r"\d+\.\d+\.\d+"),
        lua_str(&lua, "Version should match semver format"),
    ));
    assert!(result.is_err());
    let err_msg = result.unwrap_err().to_string();
    assert!(err_msg.contains("Version should match semver format"));
}

#[test]
fn test_assert_table_has_key_with_custom_message() {
    let lua = Lua::new();
    let f = assert_fn(&lua, "table_has_key");
    let table = lua.create_table().unwrap();
    table.set("name", "test").unwrap();
    let result: mlua::Result<()> = f.call::<()>((
        Value::Table(table),
        lua_str(&lua, "database_url"),
        lua_str(&lua, "Config must contain database_url"),
    ));
    assert!(result.is_err());
    let err_msg = result.unwrap_err().to_string();
    assert!(err_msg.contains("Config must contain database_url"));
}

#[test]
fn command_exists_messages() {
    assert_eq!(check_command_exists("ls", Ok(true), None), Ok(()));
    assert_eq!(
        check_command_exists("nope", Ok(false), Some("need it")),
        Err("need it: Assertion failed: command 'nope' not found in PATH".to_string())
    );
    assert_eq!(
        check_command_exists("x", Err("no which".to_string()), None),
        Err("Assertion failed: unable to check command 'x': no which".to_string())
    );
}

#[test]
fn str_matches_decides_by_the_pattern() {
    assert_eq!(check_str_matches(Some("build 42"), Some("[0-9]+"), None), Ok(()));
    assert_eq!(
        check_str_matches(Some("build"), Some("[0-9]+"), None),
        Err("Assertion failed: 'build' does not match regex '[0-9]+'".to_string())
    );
    assert!(check_str_matches(Some("x"), Some("("), None).unwrap_err().starts_with("Invalid regex: "));
}
