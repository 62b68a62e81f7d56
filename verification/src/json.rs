//! JSON text: the serde_json calls the library makes and the framing it writes.

use vstd::prelude::*;
use crate::text::string_of;

verus! {

/// `serde_json::Error`, carried from the parse calls to the library's error type.
#[verifier::external_type_specification]
#[verifier::external_body]
pub struct ExJsonError(serde_json::Error);

/// A hexadecimal digit as serde_json writes it (lowercase).
pub open spec fn hex_digit(n: int) -> char {
    if n < 10 {
        (0x30 + n) as char
    } else {
        (0x61 + n - 10) as char
    }
}

/// How serde_json writes one character inside a string literal: the quote, the backslash
/// and the control characters escaped (the five short escapes, else `\u00XX`), every other
/// character as it is.
pub open spec fn json_escape(c: char) -> Seq<char> {
    let u = c as u32;
    if c == '"' {
        seq!['\\', '"']
    } else if c == '\\' {
        seq!['\\', '\\']
    } else if u == 0x08 {
        seq!['\\', 'b']
    } else if u == 0x09 {
        seq!['\\', 't']
    } else if u == 0x0a {
        seq!['\\', 'n']
    } else if u == 0x0c {
        seq!['\\', 'f']
    } else if u == 0x0d {
        seq!['\\', 'r']
    } else if u < 0x20 {
        seq!['\\', 'u', '0', '0', hex_digit(u as int / 16), hex_digit(u as int % 16)]
    } else {
        seq![c]
    }
}

/// The characters of a string, each escaped.
pub open spec fn json_escaped(s: Seq<char>) -> Seq<char>
    decreases s.len(),
{
    if s.len() == 0 {
        seq![]
    } else {
        json_escaped(s.drop_last()) + json_escape(s.last())
    }
}

/// What `serde_json::to_string(&str)` writes: the string as a JSON string literal.
pub open spec fn json_quoted(s: Seq<char>) -> Seq<char> {
    seq!['"'] + json_escaped(s) + seq!['"']
}

/// The string that a JSON text denotes, if it denotes one
/// (`serde_json::from_str::<Value>` followed by `serde_json::from_value::<String>`).
pub uninterp spec fn json_text_string(t: Seq<char>) -> Option<Seq<char>>;

/// The boolean that a JSON text denotes, if any (`from_str::<Value>` then `from_value::<bool>`).
pub uninterp spec fn json_text_bool(t: Seq<char>) -> Option<bool>;

/// The `i64` that a JSON text denotes, if any (`from_str::<Value>` then `from_value::<i64>`).
pub uninterp spec fn json_text_i64(t: Seq<char>) -> Option<i64>;

/// The optional string that a JSON text denotes, if any
/// (`from_str::<Value>` then `from_value::<Option<String>>`).
pub uninterp spec fn json_text_opt_string(t: Seq<char>) -> Option<Option<Seq<char>>>;

/// `serde_json::to_string` on a `str`. The claim: the result is the JSON literal of the
/// string, and reading that literal back (as a string, or as an optional string) gives
/// the string again, as serde_json's round trip promises.
#[verifier::external_body]
pub(crate) fn json_quote(s: &str) -> (r: String)
    ensures
        r@ == json_quoted(s@),
        json_text_string(r@) == Some(s@),
        json_text_opt_string(r@) == Some(Some(s@)),
{
    match serde_json::to_string(s) {
        Ok(t) => t,
        Err(_) => String::new(),
    }
}

/// `serde_json::from_str::<Value>` then `from_value::<String>`.
#[verifier::external_body]
pub(crate) fn json_parse_string(t: &str) -> (r: Result<String, serde_json::Error>)
    ensures
        r is Ok <==> json_text_string(t@) is Some,
        r matches Ok(v) ==> json_text_string(t@) == Some(v@),
{
    serde_json::from_str::<serde_json::Value>(t).and_then(serde_json::from_value::<String>)
}

/// `serde_json::from_str::<Value>` then `from_value::<bool>`; the literals `true` and
/// `false` read as themselves.
#[verifier::external_body]
pub(crate) fn json_parse_bool(t: &str) -> (r: Result<bool, serde_json::Error>)
    ensures
        r is Ok <==> json_text_bool(t@) is Some,
        r matches Ok(v) ==> json_text_bool(t@) == Some(v),
        r is Ok && r.unwrap() || t@ != "true"@,
        r is Ok && !r.unwrap() || t@ != "false"@,
{
    serde_json::from_str::<serde_json::Value>(t).and_then(serde_json::from_value::<bool>)
}

/// `serde_json::from_str::<Value>` then `from_value::<i64>`; a decimal integer literal
/// reads as its value.
#[verifier::external_body]
pub(crate) fn json_parse_i64(t: &str) -> (r: Result<i64, serde_json::Error>)
    ensures
        r is Ok <==> json_text_i64(t@) is Some,
        r matches Ok(v) ==> json_text_i64(t@) == Some(v),
        forall|n: i64| t@ == decimal(n as int) ==> r is Ok && r.unwrap() == n,
{
    serde_json::from_str::<serde_json::Value>(t).and_then(serde_json::from_value::<i64>)
}

/// `serde_json::from_str::<Value>` then `from_value::<Option<String>>`; `null` reads as
/// `None`.
#[verifier::external_body]
pub(crate) fn json_parse_opt_string(t: &str) -> (r: Result<Option<String>, serde_json::Error>)
    ensures
        r is Ok <==> json_text_opt_string(t@) is Some,
        r matches Ok(v) ==> json_text_opt_string(t@) == Some(opt_view(v)),
        r is Ok && r.unwrap() is None || t@ != "null"@,
{
    serde_json::from_str::<serde_json::Value>(t).and_then(serde_json::from_value::<Option<String>>)
}

/// `Display` of `serde_json::Error`.
#[verifier::external_body]
pub(crate) fn json_error_message(e: &serde_json::Error) -> String {
    e.to_string()
}

/// The view of an optional string.
pub open spec fn opt_view(o: Option<String>) -> Option<Seq<char>> {
    match o {
        Some(s) => Some(s@),
        None => None,
    }
}

/// A decimal digit character.
pub open spec fn digit_char(d: nat) -> char {
    (('0' as u32) + d) as char
}

/// Decimal digits of a natural number, as `Display` writes them.
pub open spec fn digits(n: nat) -> Seq<char>
    decreases n,
{
    if n < 10 {
        seq![digit_char(n)]
    } else {
        digits(n / 10).push(digit_char(n % 10))
    }
}

/// Decimal text of an integer, as `Display` writes it.
pub open spec fn decimal(n: int) -> Seq<char> {
    if n < 0 {
        seq!['-'] + digits((-n) as nat)
    } else {
        digits(n as nat)
    }
}

fn digit_of(d: u64) -> (c: char)
    requires
        d < 10,
    ensures
        c == digit_char(d as nat),
{
    let v: u32 = ('0' as u32) + (d as u32);
    proof {
        assert(v < 0x80);
    }
    char_from_digit(v)
}

#[verifier::external_body]
fn char_from_digit(v: u32) -> (r: char)
    requires
        v < 0x80,
    ensures
        r == v as char,
{
    char::from_u32(v).unwrap()
}

/// Decimal digits of an unsigned integer.
pub fn digits_u64(n: u64) -> (r: Vec<char>)
    ensures
        r@ == digits(n as nat),
    decreases n,
{
    if n < 10 {
        let mut v: Vec<char> = Vec::new();
        v.push(digit_of(n));
        v
    } else {
        let mut v = digits_u64(n / 10);
        v.push(digit_of(n % 10));
        v
    }
}

/// `Display` of a `u64`.
pub fn decimal_u64(n: u64) -> (r: String)
    ensures
        r@ == decimal(n as int),
{
    let v = digits_u64(n);
    string_of(v.as_slice())
}

/// `Display` of an `i64`.
pub fn decimal_i64(n: i64) -> (r: String)
    ensures
        r@ == decimal(n as int),
{
    if n < 0 {
        let m: u64 = ((-(n + 1)) as u64) + 1;
        assert(m as int == -(n as int));
        let d = digits_u64(m);
        let mut v: Vec<char> = Vec::new();
        v.push('-');
        let mut i: usize = 0;
        while i < d.len()
            invariant
                i <= d.len(),
                v@ == seq!['-'] + d@.take(i as int),
            decreases d.len() - i,
        {
            v.push(d[i]);
            i = i + 1;
            assert(d@.take(i as int) == d@.take(i - 1).push(d@[i - 1]));
        }
        assert(d@.take(d.len() as int) == d@);
        string_of(v.as_slice())
    } else {
        let d = digits_u64(n as u64);
        string_of(d.as_slice())
    }
}

/// Appends `b` to `a`.
pub fn append(a: &mut String, b: &str)
    ensures
        final(a)@ == old(a)@ + b@,
{
    a.append(b);
}


/// `true` or `false`.
pub open spec fn bool_text(b: bool) -> Seq<char> {
    if b {
        "true"@
    } else {
        "false"@
    }
}

/// `serde_json::to_string` on a `bool`: the literal, which reads back as the boolean.
#[verifier::external_body]
pub(crate) fn json_bool(b: bool) -> (r: String)
    ensures
        r@ == bool_text(b),
        json_text_bool(r@) == Some(b),
{
    match serde_json::to_string(&b) {
        Ok(t) => t,
        Err(_) => String::new(),
    }
}

/// `serde_json::to_string` on an `i64`: its decimal text, which reads back as the number.
#[verifier::external_body]
pub(crate) fn json_i64(n: i64) -> (r: String)
    ensures
        r@ == decimal(n as int),
        json_text_i64(r@) == Some(n),
{
    match serde_json::to_string(&n) {
        Ok(t) => t,
        Err(_) => String::new(),
    }
}

/// `serde_json::to_string` on an `Option<String>`: `null` or the string's literal, which
/// reads back as the optional string.
#[verifier::external_body]
pub(crate) fn json_opt_string(o: &Option<String>) -> (r: String)
    ensures
        r@ == match o {
            Some(s) => json_quoted(s@),
            None => "null"@,
        },
        json_text_opt_string(r@) == Some(opt_view(*o)),
{
    match serde_json::to_string(o) {
        Ok(t) => t,
        Err(_) => String::new(),
    }
}


/// `Display` of a `bool`.
pub fn bool_word(b: bool) -> (r: String)
    ensures
        r@ == bool_text(b),
{
    if b {
        "true".to_owned()
    } else {
        "false".to_owned()
    }
}

} // verus!
