use vstd::prelude::*;
use sha2::Digest;
use vstd::utf8::{encode_utf8, is_ascii_chars, is_ascii_chars_encode_utf8};

use crate::text::{decimal, decimal_string, join3, owned};

verus! {

/// The lower-case hexadecimal digit for a value below sixteen.
pub open spec fn hex_digit(n: int) -> char {
    if n < 10 {
        (48 + n) as char
    } else {
        (87 + n) as char
    }
}

/// Lower-case hexadecimal text of `bytes`, two digits per byte, high nibble first.
pub open spec fn hex_lower(bytes: Seq<u8>) -> Seq<char> {
    Seq::new(
        2 * bytes.len(),
        |i: int|
            if i % 2 == 0 {
                hex_digit(bytes[i / 2] as int / 16)
            } else {
                hex_digit(bytes[i / 2] as int % 16)
            },
    )
}

/// True when `c` is one of `0-9`, `a-f`.
pub open spec fn is_lower_hex_char(c: char) -> bool {
    ('0' <= c <= '9') || ('a' <= c <= 'f')
}

/// Trusted: `hex::encode` writes each byte as two lower-case hex digits, high nibble first.
#[verifier::external_body]
fn hex_encode_bytes(data: &[u8]) -> (r: String)
    ensures
        r@ == hex_lower(data@),
{
    hex::encode(data)
}

/// Lower-case hex text of `data`.
pub fn hex_encode(data: &[u8]) -> (r: String)
    ensures
        r@ == hex_lower(data@),
        r@.len() == 2 * data@.len(),
{
    hex_encode_bytes(data)
}

/// Why hex text failed to decode.
#[derive(PartialEq, Eq, Structural, Clone, Copy, Debug)]
pub enum HexError {
    /// A byte that is not a hex digit, with its position.
    InvalidHexCharacter { c: char, index: usize },
    /// The text has an odd number of bytes.
    OddLength,
    /// The text does not fit the fixed-size target.
    InvalidStringLength,
}

/// The value of a hex digit byte (either case).
pub open spec fn hex_value(b: u8) -> Option<u8> {
    if 48 <= b <= 57 {
        Some((b - 48) as u8)
    } else if 65 <= b <= 70 {
        Some((b - 55) as u8)
    } else if 97 <= b <= 102 {
        Some((b - 87) as u8)
    } else {
        None
    }
}

/// The first position at or after `i` whose byte is not a hex digit.
pub open spec fn first_non_hex(data: Seq<u8>, i: nat) -> Option<nat>
    decreases data.len() - i,
{
    if i >= data.len() {
        None
    } else if hex_value(data[i as int]) is None {
        Some(i)
    } else {
        first_non_hex(data, i + 1)
    }
}

/// What decoding the hex text `data` gives: its bytes, or the first problem found.
pub open spec fn hex_decoded(data: Seq<u8>) -> Result<Seq<u8>, HexError> {
    if data.len() % 2 != 0 {
        Err(HexError::OddLength)
    } else {
        match first_non_hex(data, 0) {
            Some(i) => Err(HexError::InvalidHexCharacter { c: data[i as int] as char, index: i as usize }),
            None => Ok(
                Seq::new(
                    data.len() / 2,
                    |k: int| (hex_value(data[2 * k])->0 * 16 + hex_value(data[2 * k + 1])->0) as u8,
                ),
            ),
        }
    }
}

/// Trusted: `hex::decode` rejects text of odd length, then reports the first non-hex byte
/// (as a character, with its position), and otherwise gives one byte per digit pair.
#[verifier::external_body]
fn hex_decode_bytes(data: &[u8]) -> (r: Result<Vec<u8>, HexError>)
    ensures
        match r {
            Ok(v) => hex_decoded(data@) == Ok::<Seq<u8>, HexError>(v@),
            Err(e) => hex_decoded(data@) == Err::<Seq<u8>, HexError>(e),
        },
{
    match hex::decode(data) {
        Ok(v) => Ok(v),
        Err(hex::FromHexError::InvalidHexCharacter { c, index }) => Err(
            HexError::InvalidHexCharacter { c, index },
        ),
        Err(hex::FromHexError::OddLength) => Err(HexError::OddLength),
        Err(hex::FromHexError::InvalidStringLength) => Err(HexError::InvalidStringLength),
    }
}

/// Decodes hex text, as `hex::decode` does on the text's UTF-8 bytes.
pub fn hex_decode(s: &str) -> (r: Result<Vec<u8>, HexError>)
    ensures
        match r {
            Ok(v) => hex_decoded(encode_utf8(s@)) == Ok::<Seq<u8>, HexError>(v@),
            Err(e) => hex_decoded(encode_utf8(s@)) == Err::<Seq<u8>, HexError>(e),
        },
{
    hex_decode_bytes(s.as_bytes())
}

/// How `{:?}` renders a character (quoted, with escapes).
pub uninterp spec fn char_debug_text(c: char) -> Seq<char>;

/// Trusted: formatting a character with `{:?}` depends on the character alone.
#[verifier::external_body]
fn char_debug(c: char) -> (r: String)
    ensures
        r@ == char_debug_text(c),
{
    format!("{:?}", c)
}

/// The text that a hex decoding error displays.
pub open spec fn hex_error_text(e: HexError) -> Seq<char> {
    match e {
        HexError::InvalidHexCharacter { c, index } => "Invalid character "@ + char_debug_text(c)
            + " at position "@ + decimal(index as nat),
        HexError::OddLength => "Odd number of digits"@,
        HexError::InvalidStringLength => "Invalid string length"@,
    }
}

/// The message of a hex decoding error.
pub fn hex_error_message(e: &HexError) -> (r: String)
    ensures
        r@ == hex_error_text(*e),
{
    match e {
        HexError::InvalidHexCharacter { c, index } => {
            let shown = char_debug(*c);
            let pos = decimal_string(*index as u64);
            let mut r = join3("Invalid character ", shown.as_str(), " at position ");
            r.append(pos.as_str());
            r
        },
        HexError::OddLength => owned("Odd number of digits"),
        HexError::InvalidStringLength => owned("Invalid string length"),
    }
}

/// The SHA-256 digest of `data`.
pub uninterp spec fn sha256(data: Seq<u8>) -> Seq<u8>;

/// Trusted: `Sha256::digest` gives a 32-byte digest that depends on the input alone.
#[verifier::external_body]
fn sha256_digest(data: &[u8]) -> (r: Vec<u8>)
    ensures
        r@ == sha256(data@),
        r@.len() == 32,
{
    sha2::Sha256::digest(data).to_vec()
}

/// The object hash of some content: lower-case hex of its SHA-256 digest.
pub open spec fn content_hash_of(data: Seq<u8>) -> Seq<char> {
    hex_lower(sha256(data))
}

/// Hashes content as blobs are named: lower-case hex SHA-256, 64 characters.
pub fn content_hash(data: &[u8]) -> (r: String)
    ensures
        r@ == content_hash_of(data@),
        r@.len() == 64,
{
    let d = sha256_digest(data);
    hex_encode(d.as_slice())
}

/// How a character appears inside a JSON string literal written by `serde_json`.
pub open spec fn json_escape(c: char) -> Seq<char> {
    if c == '"' {
        seq!['\\', '"']
    } else if c == '\\' {
        seq!['\\', '\\']
    } else if c as u32 == 8 {
        seq!['\\', 'b']
    } else if c as u32 == 9 {
        seq!['\\', 't']
    } else if c as u32 == 10 {
        seq!['\\', 'n']
    } else if c as u32 == 12 {
        seq!['\\', 'f']
    } else if c as u32 == 13 {
        seq!['\\', 'r']
    } else if (c as u32) < 32 {
        seq!['\\', 'u', '0', '0', hex_digit(c as int / 16), hex_digit(c as int % 16)]
    } else {
        seq![c]
    }
}

/// The escaped body of a JSON string literal for `s`.
pub open spec fn json_escaped(s: Seq<char>) -> Seq<char>
    decreases s.len(),
{
    if s.len() == 0 {
        seq![]
    } else {
        json_escaped(s.drop_last()) + json_escape(s.last())
    }
}

/// The JSON string literal for `s`, quotes included.
pub open spec fn json_str(s: Seq<char>) -> Seq<char> {
    seq!['"'] + json_escaped(s) + seq!['"']
}

/// A character that a JSON string literal holds as it is.
pub open spec fn json_plain_char(c: char) -> bool {
    c != '"' && c != '\\' && (c as u32) >= 32
}

/// Text made of such characters is its own escaped form.
pub proof fn lemma_json_escaped_plain(s: Seq<char>)
    requires
        forall|i: int| 0 <= i < s.len() ==> json_plain_char(#[trigger] s[i]),
    ensures
        json_escaped(s) == s,
    decreases s.len(),
{
    if s.len() > 0 {
        let t = s.drop_last();
        assert forall|i: int| 0 <= i < t.len() implies json_plain_char(#[trigger] t[i]) by {
            assert(t[i] == s[i]);
        }
        lemma_json_escaped_plain(t);
        assert(json_plain_char(s[s.len() - 1]));
        assert(s =~= t + seq![s.last()]);
    }
}

/// The members of a JSON object, comma-separated, each a name literal, `:` and the
/// value's text.
pub open spec fn json_members(ms: Seq<(Seq<char>, Seq<char>)>) -> Seq<char>
    decreases ms.len(),
{
    if ms.len() == 0 {
        seq![]
    } else if ms.len() == 1 {
        json_str(ms[0].0) + seq![':'] + ms[0].1
    } else {
        json_members(ms.drop_last()) + seq![','] + json_str(ms.last().0) + seq![':'] + ms.last().1
    }
}

/// The compact JSON text of an object with the given members, in order.
pub open spec fn json_object(ms: Seq<(Seq<char>, Seq<char>)>) -> Seq<char> {
    seq!['{'] + json_members(ms) + seq!['}']
}

/// Trusted: `serde_json::to_string` on a string writes it quoted, escaping `"`, `\`
/// and control characters (short forms for backspace, tab, newline, form feed and
/// carriage return, `\u00XX` with lower-case hex otherwise); it cannot fail on a string.
#[verifier::external_body]
fn json_quote_str(s: &str) -> (r: String)
    ensures
        r@ == json_str(s@),
{
    serde_json::to_string(s).expect("a string always serializes")
}

/// Appends the JSON string literal for `s` to `out`.
pub fn push_json_str(out: &mut String, s: &str)
    ensures
        final(out)@ == old(out)@ + json_str(s@),
{
    let q = json_quote_str(s);
    out.append(q.as_str());
}

/// Hex text has two characters per byte, each a lower-case hex digit.
pub proof fn law_hex_text_is_lower_hex(bytes: Seq<u8>)
    ensures
        hex_lower(bytes).len() == 2 * bytes.len(),
        forall|i: int| 0 <= i < hex_lower(bytes).len() ==> is_lower_hex_char(#[trigger] hex_lower(bytes)[i]),
{
    assert forall|i: int| 0 <= i < hex_lower(bytes).len() implies is_lower_hex_char(#[trigger] hex_lower(bytes)[i]) by {
        let b = bytes[i / 2] as int;
        let n = if i % 2 == 0 { b / 16 } else { b % 16 };
        assert(0 <= n < 16);
        assert(hex_lower(bytes)[i] == hex_digit(n));
    }
}

proof fn lemma_all_hex_from(data: Seq<u8>, i: nat)
    requires
        i <= data.len(),
        forall|j: int| i <= j < data.len() ==> (#[trigger] hex_value(data[j])) is Some,
    ensures
        first_non_hex(data, i) is None,
    decreases data.len() - i,
{
    if i < data.len() {
        lemma_all_hex_from(data, i + 1);
    }
}

/// Decoding the hex text of some bytes gives those bytes back.
pub proof fn law_hex_roundtrip(bytes: Seq<u8>)
    ensures
        hex_decoded(encode_utf8(hex_lower(bytes))) == Ok::<Seq<u8>, HexError>(bytes),
{
    let h = hex_lower(bytes);
    law_hex_text_is_lower_hex(bytes);
    assert(is_ascii_chars(h)) by {
        assert forall|i: int| 0 <= i < h.len() implies '\0' <= #[trigger] h[i] <= '\u{7f}' by {
            assert(is_lower_hex_char(h[i]));
        }
    }
    is_ascii_chars_encode_utf8(h);
    let data = encode_utf8(h);
    assert forall|j: int| 0 <= j < data.len() implies #[trigger] hex_value(data[j]) == Some(
        (if j % 2 == 0 { bytes[j / 2] as int / 16 } else { bytes[j / 2] as int % 16 }) as u8,
    ) by {
        assert(h[j] as u8 == data[j]);
        let n = if j % 2 == 0 { bytes[j / 2] as int / 16 } else { bytes[j / 2] as int % 16 };
        assert(h[j] == hex_digit(n));
    }
    lemma_all_hex_from(data, 0);
    assert(data.len() % 2 == 0);
    let decoded = Seq::new(
        data.len() / 2,
        |k: int| (hex_value(data[2 * k])->0 * 16 + hex_value(data[2 * k + 1])->0) as u8,
    );
    assert forall|k: int| 0 <= k < bytes.len() implies decoded[k] == bytes[k] by {
        assert(hex_value(data[2 * k]) == Some((bytes[k] as int / 16) as u8));
        assert(hex_value(data[2 * k + 1]) == Some((bytes[k] as int % 16) as u8));
    }
    assert(decoded =~= bytes);
}

} // verus!
