use gaiaci::lua_crypto::{base64_decode, base64_encode, sha256_hex, to_hex, Crypto};
use mlua::Lua;

#[test]
fn sha256_of_known_texts() {
    assert_eq!(
        sha256_hex("hello"),
        "2cf24dba5fb0a30e26e83b2ac5b9e29e1b161e5c1fa7425e73043362938b9824"
    );
    assert_eq!(
        sha256_hex(""),
        "e3b0c44298fc1c149afbf4c8996fb92427ae41e4649b934ca495991b7852b855"
    );
}

#[test]
fn hex_of_bytes() {
    assert_eq!(to_hex(&[0x00, 0x0f, 0xa0, 0xff]), "000fa0ff");
    assert_eq!(to_hex(&[]), "");
}

#[test]
fn base64_round_trip() {
    assert_eq!(base64_encode("hello"), "aGVsbG8=");
    assert_eq!(base64_decode("aGVsbG8="), Ok("hello".to_string()));
    let text = "CI pipeline ✓";
    assert_eq!(base64_decode(&base64_encode(text)), Ok(text.to_string()));
}

#[test]
fn base64_decode_refuses_bad_input() {
    let err = base64_decode("!!!").unwrap_err();
    assert!(err.starts_with("Base64 decode error: "));
    assert!(err.contains("Invalid"));
}

#[test]
fn crypto_module_in_lua() {
    let lua = Lua::new();
    let crypto = Crypto::create(&lua).unwrap();
    lua.globals().set("crypto", crypto).unwrap();
    let digest: String = lua.load(r#"return crypto.sha256("hello")"#).eval().unwrap();
    assert_eq!(digest, "2cf24dba5fb0a30e26e83b2ac5b9e29e1b161e5c1fa7425e73043362938b9824");
    let enc: String = lua.load(r#"return crypto.base64_encode("hello")"#).eval().unwrap();
    assert_eq!(enc, "aGVsbG8=");
    let dec: String = lua.load(r#"return crypto.base64_decode("aGVsbG8=")"#).eval().unwrap();
    assert_eq!(dec, "hello");
    let bad: mlua::Result<String> = lua.load(r#"return crypto.base64_decode("***")"#).eval();
    assert!(bad.unwrap_err().to_string().contains("Base64 decode error"));
    let id: String = lua.load(r#"return crypto.uuid()"#).eval().unwrap();
    assert_eq!(id.len(), 36);
    assert_eq!(id.matches('-').count(), 4);
    let chars: Vec<char> = id.chars().collect();
    assert_eq!(chars[14], '4');
    assert!("89ab".contains(chars[19]));
    for (i, c) in chars.iter().enumerate() {
        if [8, 13, 18, 23].contains(&i) {
            assert_eq!(*c, '-');
        } else {
            assert!(c.is_ascii_hexdigit() && !c.is_ascii_uppercase());
        }
    }
}

#[test]
fn base64_decode_accepts_only_canonical_text() {
    assert!(base64_decode("aGVsbG8").is_err());
    assert!(base64_decode("aGVsbG9=").is_err());
    assert!(base64_decode("aGVsbG8==").is_err());
    assert!(base64_decode(" aGVsbG8=").is_err());
    assert_eq!(base64_decode(""), Ok(String::new()));
    assert_eq!(base64_decode("YQ=="), Ok("a".to_string()));
    assert_eq!(base64_decode("YWI="), Ok("ab".to_string()));
    assert_eq!(base64_encode("ab"), "YWI=");
    assert_eq!(base64_encode("a+/?"), "YSsvPw==");
}
