//! The few questions that are asked of JSON texts.
use vstd::prelude::*;

use crate::text::opt_text;

verus! {

/// The first key of the object that a JSON text is; none where it is no object, or
/// an empty one.
pub uninterp spec fn json_first_key(text: Seq<char>) -> Option<Seq<char>>;

/// Parses the text with `serde_json::from_str` and takes the first of the keys of
/// the object it is, by `serde_json::Map::keys`: the text alone decides it.
#[verifier::external_body]
pub(crate) fn first_key(text: &str) -> (r: Option<String>)
    ensures
        opt_text(r) == json_first_key(text@),
{
    let v = serde_json::from_str::<serde_json::Value>(text).ok()?;
    v.as_object()?.keys().next().cloned()
}

/// The string at a place in a JSON text; none where there is no such place, or
/// something else there.
pub uninterp spec fn json_string_at(text: Seq<char>, pointer: Seq<char>) -> Option<Seq<char>>;

/// Parses the text with `serde_json::from_str`, follows the pointer with
/// `serde_json::Value::pointer` and asks `Value::as_str` of what is there: the
/// text and the pointer alone decide it.
#[verifier::external_body]
pub(crate) fn string_at(text: &str, pointer: &str) -> (r: Option<String>)
    ensures
        opt_text(r) == json_string_at(text@, pointer@),
{
    let v = serde_json::from_str::<serde_json::Value>(text).ok()?;
    v.pointer(pointer)?.as_str().map(|s| s.to_owned())
}

/// The whole number at a place in a JSON text; none where there is no such place,
/// or something else there.
pub uninterp spec fn json_u64_at(text: Seq<char>, pointer: Seq<char>) -> Option<u64>;

/// Parses the text with `serde_json::from_str`, follows the pointer with
/// `serde_json::Value::pointer` and asks `Value::as_u64` of what is there: the text
/// and the pointer alone decide it.
#[verifier::external_body]
pub(crate) fn u64_at(text: &str, pointer: &str) -> (r: Option<u64>)
    ensures
        r == json_u64_at(text@, pointer@),
{
    let v = serde_json::from_str::<serde_json::Value>(text).ok()?;
    v.pointer(pointer)?.as_u64()
}

/// The number at a place in a JSON text, as JSON writes it; none where there is no
/// such place, or something else there.
pub uninterp spec fn json_number_at(text: Seq<char>, pointer: Seq<char>) -> Option<Seq<char>>;

/// Parses the text with `serde_json::from_str`, follows the pointer with
/// `serde_json::Value::pointer`, asks `Value::as_f64` of what is there and gives the
/// text of that number as a `Value`: the text and the pointer alone decide it.
#[verifier::external_body]
pub(crate) fn number_text_at(text: &str, pointer: &str) -> (r: Option<String>)
    ensures
        opt_text(r) == json_number_at(text@, pointer@),
{
    let v = serde_json::from_str::<serde_json::Value>(text).ok()?;
    v.pointer(pointer)?.as_f64().map(|x| serde_json::Value::from(x).to_string())
}

/// One digit to the base of 16.
pub open spec fn hex_digit(n: int) -> char {
    "0123456789abcdef"@[n]
}

/// How a character is written within a text in JSON: the quote, the backslash and
/// the control characters are escaped, and nothing else is.
pub open spec fn json_char(c: char) -> Seq<char> {
    if c == '"' || c == '\\' {
        seq!['\\', c]
    } else if c == '\n' {
        seq!['\\', 'n']
    } else if c == '\r' {
        seq!['\\', 'r']
    } else if c == '\t' {
        seq!['\\', 't']
    } else if c == '\u{8}' {
        seq!['\\', 'b']
    } else if c == '\u{c}' {
        seq!['\\', 'f']
    } else if 0x20 > c as int {
        "\\u00"@ + seq![hex_digit(c as int / 16), hex_digit(c as int % 16)]
    } else {
        seq![c]
    }
}

/// The characters of a text, each as JSON writes it.
pub open spec fn json_chars(s: Seq<char>) -> Seq<char>
    decreases s.len(),
{
    if s.len() == 0 {
        Seq::empty()
    } else {
        json_chars(s.drop_last()) + json_char(s.last())
    }
}

/// How a text is written in JSON: between quotes.
pub open spec fn json_text(s: Seq<char>) -> Seq<char> {
    seq!['"'] + json_chars(s) + seq!['"']
}

/// Writes a text with `serde_json::to_string`: between quotes, with the quote, the
/// backslash and the control characters escaped. A text is always written: nothing
/// in its way can fail.
#[verifier::external_body]
pub(crate) fn to_json(s: &str) -> (r: Result<String, String>)
    ensures
        r is Ok,
        r matches Ok(t) ==> t@ == json_text(s@),
{
    serde_json::to_string(s).map_err(|e| e.to_string())
}

/// A character that needs no escape stands for itself; a quote and a backslash come
/// behind a backslash; and no control character is ever written as it is.
pub proof fn a_character_is_escaped_only_where_it_must_be(c: char)
    ensures
        json_char(c).len() >= 1,
        c as int >= 32 && c != '"' && c != '\\' ==> json_char(c) == seq![c],
        c == '"' || c == '\\' ==> json_char(c).len() == 2 && json_char(c)[0] == '\\' && json_char(
            c,
        )[1] == c,
        (c as int) < 32 ==> json_char(c).len() >= 2 && json_char(c)[0] == '\\',
        forall|i: int| 0 <= i < json_char(c).len() ==> #[trigger] json_char(c)[i] as int >= 32,
{
    reveal_strlit("\\u00");
    reveal_strlit("0123456789abcdef");
    let h = "0123456789abcdef"@;
    assert forall|k: int| 0 <= k < 16 implies #[trigger] h[k] as int >= 32 by {
        assert(k == 0 || k == 1 || k == 2 || k == 3 || k == 4 || k == 5 || k == 6 || k == 7 || k
            == 8 || k == 9 || k == 10 || k == 11 || k == 12 || k == 13 || k == 14 || k == 15);
    }
    if (c as int) < 32 {
        assert(0 <= c as int / 16 < 16 && 0 <= c as int % 16 < 16);
    }
}

/// A text is written character by character, in order, between two quotes.
pub proof fn a_text_is_written_in_order(a: Seq<char>, b: Seq<char>)
    ensures
        json_chars(a + b) == json_chars(a) + json_chars(b),
        json_text(a) == seq!['"'] + json_chars(a) + seq!['"'],
        json_chars(seq!['"']) == seq!['\\', '"'],
    decreases b.len(),
{
    if b.len() == 0 {
        assert(a + b =~= a);
        assert(json_chars(a + b) =~= json_chars(a) + json_chars(b));
    } else {
        a_text_is_written_in_order(a, b.drop_last());
        assert((a + b).drop_last() =~= a + b.drop_last());
        assert((a + b).last() == b.last());
        assert(json_chars(a + b) =~= json_chars(a) + json_chars(b));
    }
    let q = seq!['"'];
    assert(q.drop_last() =~= Seq::<char>::empty());
    reveal_with_fuel(json_chars, 2);
    assert(json_chars(q) =~= seq!['\\', '"']);
}

} // verus!
