//! JSON documents, as far as the bench reads and writes them.
use vstd::prelude::*;
use crate::text::{cat4, decimal, decimal_text, group_views, opt_text, texts};

verus! {

/// The text that a JSON pointer finds in a document; `None` where the document is no JSON, the
/// pointer finds nothing or what it finds is no string.
pub uninterp spec fn json_text_at(document: Seq<char>, pointer: Seq<char>) -> Option<Seq<char>>;

/// `serde_json::from_str`, then `Value::pointer` and `Value::as_str` on what it reads: the string
/// that a pointer finds in a document. How documents and pointers are read is not stated.
#[verifier::external_body]
pub(crate) fn text_at(document: &str, pointer: &str) -> (r: Option<String>)
    ensures
        opt_text(r) == json_text_at(document@, pointer@),
{
    let value: serde_json::Value = serde_json::from_str(document).ok()?;
    value.pointer(pointer)?.as_str().map(String::from)
}

/// How many values the array holds that a JSON pointer finds in a document; `None` where there is no
/// such array.
pub uninterp spec fn json_count_at(document: Seq<char>, pointer: Seq<char>) -> Option<usize>;

/// `serde_json::from_str`, then `Value::pointer` and `Value::as_array` on what it reads: the length
/// of the array that a pointer finds in a document. How documents and pointers are read is not
/// stated.
#[verifier::external_body]
pub(crate) fn count_at(document: &str, pointer: &str) -> (r: Option<usize>)
    ensures
        r == json_count_at(document@, pointer@),
{
    let value: serde_json::Value = serde_json::from_str(document).ok()?;
    value.pointer(pointer)?.as_array().map(|list| list.len())
}

/// A hexadecimal digit, in small letters.
pub open spec fn hex_digit(n: int) -> char {
    if n < 10 {
        (('0' as int) + n) as char
    } else {
        (('a' as int) + n - 10) as char
    }
}

/// A character inside a JSON string: quotes, backslashes and control characters are escaped, all
/// others stand as they are.
pub open spec fn json_char(c: char) -> Seq<char> {
    if c == '"' || c == '\\' {
        seq!['\\', c]
    } else if c == '\u{8}' {
        seq!['\\', 'b']
    } else if c == '\t' {
        seq!['\\', 't']
    } else if c == '\n' {
        seq!['\\', 'n']
    } else if c == '\u{c}' {
        seq!['\\', 'f']
    } else if c == '\r' {
        seq!['\\', 'r']
    } else if (c as int) < 0x20 {
        seq!['\\', 'u', '0', '0', hex_digit((c as int) / 16), hex_digit((c as int) % 16)]
    } else {
        seq![c]
    }
}

/// The characters of a text inside a JSON string.
pub open spec fn json_chars(s: Seq<char>) -> Seq<char>
    decreases s.len(),
{
    if s.len() == 0 {
        Seq::empty()
    } else {
        json_chars(s.drop_last()) + json_char(s.last())
    }
}

/// A text as JSON: between quotes.
pub open spec fn json_string(s: Seq<char>) -> Seq<char> {
    seq!['"'] + json_chars(s) + seq!['"']
}

/// `serde_json::to_string` on a text, which has no way to fail: the text as a JSON string, in which
/// quotes, backslashes and control characters are escaped, the latter by a short escape where there
/// is one and by four hexadecimal digits elsewhere.
#[verifier::external_body]
pub(crate) fn string_json(s: &str) -> (r: Option<String>)
    ensures
        opt_text(r) == Some(json_string(s@)),
{
    serde_json::to_string(s).ok()
}

/// A pointer to a field of one of the values of an array.
pub open spec fn field_pointer(array: Seq<char>, i: nat, field: Seq<char>) -> Seq<char> {
    array + "/"@ + decimal(i) + field
}

/// A pointer to a field of one of the values of an array.
pub fn pointer_to_field(array: &str, i: usize, field: &str) -> (r: String)
    ensures
        r@ == field_pointer(array@, i as nat, field@),
{
    let number = decimal_text(i as u64);
    cat4(array, "/", number.as_str(), field)
}

/// How many values an array holds, none where there is no such array.
pub open spec fn count_or_none(document: Seq<char>, array: Seq<char>) -> usize {
    match json_count_at(document, array) {
        Some(n) => n,
        None => 0,
    }
}

/// How many values an array holds, none where there is no such array.
pub fn count_in(document: &str, array: &str) -> (r: usize)
    ensures
        r == count_or_none(document@, array@),
{
    match count_at(document, array) {
        Some(n) => n,
        None => 0,
    }
}

/// The texts in a field of the first `n` values of an array.
pub open spec fn field_texts_to(
    document: Seq<char>,
    array: Seq<char>,
    field: Seq<char>,
    n: int,
) -> Seq<Seq<char>>
    decreases n,
{
    if n <= 0 {
        Seq::empty()
    } else {
        let before = field_texts_to(document, array, field, n - 1);
        match json_text_at(document, field_pointer(array, (n - 1) as nat, field)) {
            Some(text) => before.push(text),
            None => before,
        }
    }
}

/// The texts in a field of the values of an array; with an empty field, the texts in the array.
pub open spec fn field_texts(document: Seq<char>, array: Seq<char>, field: Seq<char>) -> Seq<
    Seq<char>,
> {
    field_texts_to(document, array, field, count_or_none(document, array) as int)
}

/// The texts in a field of the values of an array.
pub fn texts_in_field(document: &str, array: &str, field: &str) -> (r: Vec<String>)
    ensures
        texts(r@) == field_texts(document@, array@, field@),
{
    broadcast use group_views;

    let n: usize = count_in(document, array);
    let mut r: Vec<String> = Vec::new();
    let mut i: usize = 0;
    while i < n
        invariant
            i <= n,
            texts(r@) == field_texts_to(document@, array@, field@, i as int),
        decreases n - i,
    {
        let pointer = pointer_to_field(array, i, field);
        match text_at(document, pointer.as_str()) {
            Some(text) => {
                r.push(text);
            },
            None => {},
        }
        i += 1;
    }
    r
}

} // verus!
