//! The `crypto` module of the Lua scripting API: SHA-256 digests, random
//! UUIDs and base64 encoding.
use vstd::prelude::*;
use base64::Engine;
use sha2::Digest;
use vstd::utf8::{decode_utf8, encode_utf8, valid_utf8};
use crate::lua_assert::{lua_create_function, lua_create_table, lua_runtime_error, lua_set_function};

verus! {

/// The SHA-256 digest of some bytes, as `sha2::Sha256` computes it.
pub uninterp spec fn sha256_of(bytes: Seq<u8>) -> Seq<u8>;

/// The character of the standard base64 alphabet for the six-bit value `v`:
/// `A`-`Z`, `a`-`z`, `0`-`9`, `+` and `/`.
pub open spec fn base64_char(v: int) -> char {
    if v < 26 {
        (65 + v) as char
    } else if v < 52 {
        (97 + v - 26) as char
    } else if v < 62 {
        (48 + v - 52) as char
    } else if v == 62 {
        '+'
    } else {
        '/'
    }
}

/// The standard, padded base64 encoding of some bytes: each group of three
/// bytes becomes four characters of six bits each; a last group of one or
/// two bytes becomes two or three characters and is padded with `=` to
/// four.
pub open spec fn base64_standard(bytes: Seq<u8>) -> Seq<char>
    decreases bytes.len(),
{
    if bytes.len() == 0 {
        Seq::empty()
    } else if bytes.len() == 1 {
        let b0 = bytes[0] as int;
        seq![base64_char(b0 / 4), base64_char((b0 % 4) * 16), '=', '=']
    } else if bytes.len() == 2 {
        let b0 = bytes[0] as int;
        let b1 = bytes[1] as int;
        seq![base64_char(b0 / 4), base64_char((b0 % 4) * 16 + b1 / 16), base64_char((b1 % 16) * 4), '=']
    } else {
        let b0 = bytes[0] as int;
        let b1 = bytes[1] as int;
        let b2 = bytes[2] as int;
        seq![
            base64_char(b0 / 4),
            base64_char((b0 % 4) * 16 + b1 / 16),
            base64_char((b1 % 16) * 4 + b2 / 64),
            base64_char(b2 % 64),
        ] + base64_standard(bytes.subrange(3, bytes.len() as int))
    }
}

/// What the standard base64 engine decodes a text to: the bytes whose
/// standard, padded encoding is exactly that text (there is at most one, see
/// `lemma_base64_injective`); `None` when there are none.
pub open spec fn base64_decoded(text: Seq<char>) -> Option<Seq<u8>> {
    if exists|b: Seq<u8>| #[trigger] base64_standard(b) == text {
        Some(choose|b: Seq<u8>| #[trigger] base64_standard(b) == text)
    } else {
        None
    }
}

/// The six-bit value of a character of the standard base64 alphabet.
pub open spec fn base64_value(c: char) -> int {
    let u = c as u32 as int;
    if 65 <= u <= 90 {
        u - 65
    } else if 97 <= u <= 122 {
        u - 97 + 26
    } else if 48 <= u <= 57 {
        u - 48 + 52
    } else if c == '+' {
        62
    } else {
        63
    }
}

/// Each six-bit value has its own character, which is not `=`.
proof fn lemma_base64_char(v: int)
    requires
        0 <= v < 64,
    ensures
        base64_value(base64_char(v)) == v,
        base64_char(v) != '=',
{
}

/// A group of three bytes is read back from its four characters.
proof fn lemma_base64_group(b0: int, b1: int, b2: int, c0: int, c1: int, c2: int)
    requires
        0 <= b0 < 256,
        0 <= b1 < 256,
        0 <= b2 < 256,
        0 <= c0 < 256,
        0 <= c1 < 256,
        0 <= c2 < 256,
        b0 / 4 == c0 / 4,
        (b0 % 4) * 16 + b1 / 16 == (c0 % 4) * 16 + c1 / 16,
        (b1 % 16) * 4 + b2 / 64 == (c1 % 16) * 4 + c2 / 64,
        b2 % 64 == c2 % 64,
    ensures
        b0 == c0,
        b1 == c1,
        b2 == c2,
{
}

/// No two byte sequences have the same standard base64 encoding.
pub proof fn lemma_base64_injective(a: Seq<u8>, b: Seq<u8>)
    requires
        base64_standard(a) == base64_standard(b),
    ensures
        a == b,
    decreases a.len(),
{
    let ea = base64_standard(a);
    let eb = base64_standard(b);
    if a.len() == 0 || b.len() == 0 {
        if a.len() != 0 || b.len() != 0 {
            assert(ea.len() != eb.len() || ea.len() == 0);
            if a.len() != 0 {
                assert(ea.len() >= 4);
            } else {
                assert(eb.len() >= 4);
            }
        }
        assert(a =~= b);
    } else {
        let a0 = a[0] as int;
        let b0 = b[0] as int;
        lemma_base64_char(a0 / 4);
        lemma_base64_char(b0 / 4);
        if a.len() == 1 || b.len() == 1 || a.len() == 2 || b.len() == 2 {
            lemma_base64_short(a, b);
        } else {
            let a1 = a[1] as int;
            let a2 = a[2] as int;
            let b1 = b[1] as int;
            let b2 = b[2] as int;
            let va = seq![a0 / 4, (a0 % 4) * 16 + a1 / 16, (a1 % 16) * 4 + a2 / 64, a2 % 64];
            let vb = seq![b0 / 4, (b0 % 4) * 16 + b1 / 16, (b1 % 16) * 4 + b2 / 64, b2 % 64];
            assert forall|k: int| 0 <= k < 4 implies va[k] == vb[k] by {
                lemma_base64_char(va[k]);
                lemma_base64_char(vb[k]);
                assert(ea[k] == base64_char(va[k]));
                assert(eb[k] == base64_char(vb[k]));
            }
            lemma_base64_group(a0, a1, a2, b0, b1, b2);
            let ta = a.subrange(3, a.len() as int);
            let tb = b.subrange(3, b.len() as int);
            assert(base64_standard(ta) =~= ea.subrange(4, ea.len() as int));
            assert(base64_standard(tb) =~= eb.subrange(4, eb.len() as int));
            lemma_base64_injective(ta, tb);
            assert(a =~= seq![a[0], a[1], a[2]] + ta);
            assert(b =~= seq![b[0], b[1], b[2]] + tb);
        }
    }
}

/// The cases of `lemma_base64_injective` where one side has one or two
/// bytes.
proof fn lemma_base64_short(a: Seq<u8>, b: Seq<u8>)
    requires
        a.len() > 0,
        b.len() > 0,
        a.len() <= 2 || b.len() <= 2,
        base64_standard(a) == base64_standard(b),
    ensures
        a == b,
{
    let ea = base64_standard(a);
    let eb = base64_standard(b);
    let a0 = a[0] as int;
    let b0 = b[0] as int;
    if a.len() >= 3 {
        lemma_base64_char((a[2] as int) % 64);
        assert(ea[3] != '=');
        assert(eb[3] == '=');
    } else if b.len() >= 3 {
        lemma_base64_char((b[2] as int) % 64);
        assert(eb[3] != '=');
        assert(ea[3] == '=');
    } else if a.len() == 1 && b.len() == 2 {
        lemma_base64_char((b[1] as int % 16) * 4);
        assert(eb[2] != '=');
        assert(ea[2] == '=');
    } else if a.len() == 2 && b.len() == 1 {
        lemma_base64_char((a[1] as int % 16) * 4);
        assert(ea[2] != '=');
        assert(eb[2] == '=');
    } else if a.len() == 1 {
        lemma_base64_char(a0 / 4);
        lemma_base64_char(b0 / 4);
        lemma_base64_char((a0 % 4) * 16);
        lemma_base64_char((b0 % 4) * 16);
        assert(ea[0] == eb[0] && ea[1] == eb[1]);
        lemma_base64_group(a0, 0, 0, b0, 0, 0);
        assert(a =~= b);
    } else {
        let a1 = a[1] as int;
        let b1 = b[1] as int;
        lemma_base64_char(a0 / 4);
        lemma_base64_char(b0 / 4);
        lemma_base64_char((a0 % 4) * 16 + a1 / 16);
        lemma_base64_char((b0 % 4) * 16 + b1 / 16);
        lemma_base64_char((a1 % 16) * 4);
        lemma_base64_char((b1 % 16) * 4);
        assert(ea[0] == eb[0] && ea[1] == eb[1] && ea[2] == eb[2]);
        lemma_base64_group(a0, a1, 0, b0, b1, 0);
        assert(a =~= b);
    }
}

/// The standard encoding of some bytes decodes back to them.
pub proof fn lemma_base64_decodes_back(b: Seq<u8>)
    ensures
        base64_decoded(base64_standard(b)) == Some(b),
{
    let t = base64_standard(b);
    assert(base64_standard(b) == t);
    let c = choose|c: Seq<u8>| #[trigger] base64_standard(c) == t;
    lemma_base64_injective(c, b);
}

/// The message of the error with which the standard base64 engine refuses
/// a text.
pub uninterp spec fn base64_decode_error(text: Seq<char>) -> Seq<char>;

/// The text `String::from_utf8_lossy` makes of some bytes.
pub uninterp spec fn utf8_lossy(bytes: Seq<u8>) -> Seq<char>;

/// `Sha256::digest`: the 32-byte digest of `bytes`.
#[verifier::external_body]
fn sha256_digest(bytes: &[u8]) -> (r: Vec<u8>)
    ensures
        r@ == sha256_of(bytes@),
        r@.len() == 32,
{
    sha2::Sha256::digest(bytes).to_vec()
}

/// `STANDARD.encode`: the standard, padded base64 text of `bytes`
/// (`base64_standard`).
#[verifier::external_body]
fn base64_encode_bytes(bytes: &[u8]) -> (r: String)
    ensures
        r@ == base64_standard(bytes@),
{
    base64::engine::general_purpose::STANDARD.encode(bytes)
}

/// `STANDARD.decode`: the bytes that `text` encodes, or the message of the
/// error (`DecodeError`'s `Display`) when the engine refuses it.
#[verifier::external_body]
fn base64_decode_text(text: &str) -> (r: Result<Vec<u8>, String>)
    ensures
        match r {
            Ok(b) => base64_standard(b@) == text@,
            Err(m) => base64_decoded(text@) is None && m@ == base64_decode_error(text@),
        },
{
    match base64::engine::general_purpose::STANDARD.decode(text) {
        Ok(b) => Ok(b),
        Err(e) => Err(e.to_string()),
    }
}

/// `String::from_utf8_lossy`: the text of `bytes`, with each invalid
/// sequence replaced; valid UTF-8 is decoded unchanged.
#[verifier::external_body]
fn utf8_lossy_text(bytes: &[u8]) -> (r: String)
    ensures
        r@ == utf8_lossy(bytes@),
        valid_utf8(bytes@) ==> r@ == decode_utf8(bytes@),
{
    String::from_utf8_lossy(bytes).to_string()
}

/// `Uuid::new_v4`, written in its hyphenated form: 36 characters with
/// hyphens at positions 8, 13, 18 and 23, lower-case hexadecimal digits
/// elsewhere, the version digit `4` at position 14 and the variant digit
/// (`8`, `9`, `a` or `b`) at position 19.  The other digits are random and
/// not stated.
#[verifier::external_body]
fn random_uuid_text() -> (r: String)
    ensures
        uuid_shape(r@),
{
    uuid::Uuid::new_v4().to_string()
}

/// The lower-case hexadecimal digit of `d` (below 16).
pub open spec fn hex_digit(d: int) -> char {
    "0123456789abcdef"@[d]
}

/// Lower-case hexadecimal text of some bytes, two digits per byte.
pub open spec fn hex_lower(bytes: Seq<u8>) -> Seq<char>
    decreases bytes.len(),
{
    if bytes.len() == 0 {
        Seq::empty()
    } else {
        hex_lower(bytes.drop_last()) + seq![hex_digit(bytes.last() as int / 16), hex_digit(bytes.last() as int % 16)]
    }
}

/// Appends the hexadecimal digit of `d` to `out`.
fn push_hex_digit(out: &mut String, d: u8)
    requires
        d < 16,
    ensures
        final(out)@ == old(out)@.push(hex_digit(d as int)),
{
    let digits = "0123456789abcdef";
    proof {
        reveal_strlit("0123456789abcdef");
    }
    let piece = digits.substring_char(d as usize, d as usize + 1);
    assert(piece@ =~= seq![digits@[d as int]]);
    out.append(piece);
}

/// Lower-case hexadecimal text of some bytes.
pub fn to_hex(bytes: &[u8]) -> (r: String)
    ensures
        r@ == hex_lower(bytes@),
{
    let mut out = String::new();
    let mut i: usize = 0;
    while i < bytes.len()
        invariant
            i <= bytes@.len(),
            out@ == hex_lower(bytes@.subrange(0, i as int)),
        decreases bytes@.len() - i,
    {
        proof {
            assert(bytes@.subrange(0, i + 1).drop_last() =~= bytes@.subrange(0, i as int));
        }
        let b = bytes[i];
        push_hex_digit(&mut out, b / 16);
        push_hex_digit(&mut out, b % 16);
        i = i + 1;
    }
    assert(bytes@.subrange(0, bytes@.len() as int) =~= bytes@);
    out
}

/// `crypto.sha256(text)`: the SHA-256 digest of the text's UTF-8 bytes, in
/// lower-case hexadecimal.
pub fn sha256_hex(input: &str) -> (r: String)
    ensures
        r@ == hex_lower(sha256_of(encode_utf8(input@))),
        r@.len() == 64,
{
    let digest = sha256_digest(input.as_bytes());
    let r = to_hex(digest.as_slice());
    proof {
        lemma_hex_len(digest@);
    }
    r
}

proof fn lemma_hex_len(bytes: Seq<u8>)
    ensures
        hex_lower(bytes).len() == 2 * bytes.len(),
    decreases bytes.len(),
{
    if bytes.len() > 0 {
        lemma_hex_len(bytes.drop_last());
    }
}

/// `crypto.base64_encode(text)`: the standard base64 text of the text's
/// UTF-8 bytes.
pub fn base64_encode(input: &str) -> (r: String)
    ensures
        r@ == base64_standard(encode_utf8(input@)),
        base64_decoded(r@) == Some(encode_utf8(input@)),
{
    let r = base64_encode_bytes(input.as_bytes());
    proof {
        lemma_base64_decodes_back(encode_utf8(input@));
    }
    r
}

/// What `crypto.base64_decode` gives for a text: the decoded bytes read as
/// UTF-8 (invalid sequences replaced), or a message naming the problem.
pub open spec fn base64_decode_outcome(text: Seq<char>) -> Result<Seq<char>, Seq<char>> {
    match base64_decoded(text) {
        Some(b) => Ok(utf8_lossy(b)),
        None => Err("Base64 decode error: "@ + base64_decode_error(text)),
    }
}

/// `crypto.base64_decode(text)`: the decoded bytes as text, or the decode
/// error's message.
pub fn base64_decode(input: &str) -> (r: Result<String, String>)
    ensures
        match (r, base64_decode_outcome(input@)) {
            (Ok(s), Ok(t)) => s@ == t,
            (Err(m), Err(t)) => m@ == t,
            _ => false,
        },
        match (r, base64_decoded(input@)) {
            (Ok(s), Some(b)) => valid_utf8(b) ==> s@ == decode_utf8(b),
            _ => true,
        },
{
    match base64_decode_text(input) {
        Ok(b) => {
            proof {
                lemma_base64_decodes_back(b@);
            }
            Ok(utf8_lossy_text(b.as_slice()))
        },
        Err(e) => {
            let mut m = "Base64 decode error: ".to_owned();
            m.append(e.as_str());
            Err(m)
        },
    }
}

/// Law: decoding the base64 encoding of a text gives the text back.
pub proof fn law_base64_round_trip(text: Seq<char>, encoded: Seq<char>)
    requires
        base64_decoded(encoded) == Some(encode_utf8(text)),
    ensures
        base64_decode_outcome(encoded) matches Ok(t) && (valid_utf8(encode_utf8(text)) && decode_utf8(
            encode_utf8(text),
        ) == text),
{
    vstd::utf8::encode_utf8_valid_utf8(text);
    vstd::utf8::encode_utf8_decode_utf8(text);
}

fn lua_sha256(_lua: &mlua::Lua, input: String) -> (r: mlua::Result<String>)
    ensures
        r matches Ok(s) && s@ == hex_lower(sha256_of(encode_utf8(input@))),
{
    Ok(sha256_hex(input.as_str()))
}

/// A lower-case hexadecimal digit.
pub open spec fn is_lower_hex(c: char) -> bool {
    ('0' <= c && c <= '9') || ('a' <= c && c <= 'f')
}

/// The hyphenated form of a random (version 4) UUID: 36 characters,
/// hyphens at positions 8, 13, 18 and 23, lower-case hexadecimal digits
/// elsewhere, version digit `4` at position 14 and variant digit `8`, `9`,
/// `a` or `b` at position 19.
pub open spec fn uuid_shape(s: Seq<char>) -> bool {
    &&& s.len() == 36
    &&& s[8] == '-' && s[13] == '-' && s[18] == '-' && s[23] == '-'
    &&& forall|i: int|
        0 <= i < 36 && i != 8 && i != 13 && i != 18 && i != 23 ==> is_lower_hex(#[trigger] s[i])
    &&& s[14] == '4'
    &&& s[19] == '8' || s[19] == '9' || s[19] == 'a' || s[19] == 'b'
}

fn lua_uuid(_lua: &mlua::Lua, _args: ()) -> (r: mlua::Result<String>)
    ensures
        r matches Ok(s) && uuid_shape(s@),
{
    Ok(random_uuid_text())
}

fn lua_base64_encode(_lua: &mlua::Lua, input: String) -> (r: mlua::Result<String>)
    ensures
        r matches Ok(s) && s@ == base64_standard(encode_utf8(input@)),
{
    Ok(base64_encode(input.as_str()))
}

fn lua_base64_decode(_lua: &mlua::Lua, input: String) -> (r: mlua::Result<String>)
    ensures
        r is Ok <==> base64_decoded(input@) is Some,
        r matches Ok(s) ==> base64_decode_outcome(input@) == Ok::<Seq<char>, Seq<char>>(s@),
{
    match base64_decode(input.as_str()) {
        Ok(s) => Ok(s),
        Err(m) => Err(lua_runtime_error(m)),
    }
}

/// The `crypto` module of the Lua scripting API.
pub struct Crypto;

impl Crypto {
    /// The module table: `sha256`, `uuid`, `base64_encode` and
    /// `base64_decode`.
    pub fn create(lua: &mlua::Lua) -> (r: mlua::Result<mlua::Table>) {
        let tbl = lua_create_table(lua)?;
        lua_set_function(&tbl, "sha256", lua_create_function(lua, lua_sha256)?)?;
        lua_set_function(&tbl, "uuid", lua_create_function(lua, lua_uuid)?)?;
        lua_set_function(&tbl, "base64_encode", lua_create_function(lua, lua_base64_encode)?)?;
        lua_set_function(&tbl, "base64_decode", lua_create_function(lua, lua_base64_decode)?)?;
        Ok(tbl)
    }
}

} // verus!
