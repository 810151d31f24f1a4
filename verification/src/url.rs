//! Percent-encoding of texts in addresses and cookies.
use vstd::prelude::*;
use vstd::string::*;
use vstd::utf8::*;

verus! {

/// The character of a hexadecimal digit.
pub open spec fn hex_digit(n: u8) -> u8 {
    if n < 10 {
        (48 + n) as u8
    } else {
        (55 + n) as u8
    }
}

/// Whether a byte stands for itself in an address.
pub open spec fn unreserved(b: u8) -> bool {
    (65 <= b <= 90) || (97 <= b <= 122) || (48 <= b <= 57) || b == 45 || b == 95 || b == 46 || b
        == 126
}

/// How a byte is written in an address: as itself, or as a percent sign and two digits.
pub open spec fn escaped_byte(b: u8) -> Seq<u8> {
    if unreserved(b) {
        seq![b]
    } else {
        seq![37u8, hex_digit((b / 16) as u8), hex_digit((b % 16) as u8)]
    }
}

/// How bytes are written in an address.
pub open spec fn escaped(bytes: Seq<u8>) -> Seq<u8>
    decreases bytes.len(),
{
    if bytes.len() == 0 {
        Seq::empty()
    } else {
        escaped(bytes.drop_last()) + escaped_byte(bytes.last())
    }
}

/// Bytes as characters of the same numbers.
pub open spec fn as_chars(bytes: Seq<u8>) -> Seq<char> {
    Seq::new(bytes.len(), |i: int| bytes[i] as char)
}

/// The text of an address that stands for `s`.
pub open spec fn url_encoded(s: Seq<char>) -> Seq<char> {
    as_chars(escaped(encode_utf8(s)))
}

/// Writes a text in an address.
pub fn urlencode(raw: &str) -> (r: String)
    ensures
        r@ == url_encoded(raw@),
{
    let bytes = raw.as_bytes();
    let mut r = String::new();
    let mut i: usize = 0;
    assert(as_chars(escaped(bytes@.take(0))) =~= Seq::<char>::empty());
    while i < bytes.len()
        invariant
            i <= bytes@.len(),
            r@ == as_chars(escaped(bytes@.take(i as int))),
        decreases bytes@.len() - i,
    {
        let b: u8 = bytes[i];
        let ghost before = escaped(bytes@.take(i as int));
        proof {
            assert(bytes@.take(i + 1).drop_last() =~= bytes@.take(i as int));
        }
        let plain = (65 <= b && b <= 90) || (97 <= b && b <= 122) || (48 <= b && b <= 57) || b == 45
            || b == 95 || b == 46 || b == 126;
        if plain {
            r.push(b as char);
            assert(r@ =~= as_chars(before + escaped_byte(b)));
        } else {
            let high: u8 = b / 16;
            let low: u8 = b % 16;
            let first: u8 = if high < 10 {
                48 + high
            } else {
                55 + high
            };
            let second: u8 = if low < 10 {
                48 + low
            } else {
                55 + low
            };
            r.push('%');
            r.push(first as char);
            r.push(second as char);
            assert(37u8 as char == '%');
            assert(r@ =~= as_chars(before + escaped_byte(b)));
        }
        i += 1;
    }
    assert(bytes@.take(i as int) =~= bytes@);
    r
}

/// The value of a hexadecimal digit.
pub open spec fn hex_value(b: u8) -> Option<u8> {
    if 48 <= b <= 57 {
        Some((b - 48) as u8)
    } else if 65 <= b <= 70 {
        Some((b - 55) as u8)
    } else if 97 <= b <= 102 {
        Some((b - 87) as u8)
    } else {
        None
    }
}

/// The number that two bytes after a percent sign write; a plus sign may take the first place.
pub open spec fn hex_pair(a: u8, b: u8) -> Option<u8> {
    match (hex_value(a), hex_value(b)) {
        (Some(x), Some(y)) => Some((x * 16 + y) as u8),
        (None, Some(y)) => if a == 43 {
            Some(y)
        } else {
            None
        },
        _ => None,
    }
}

/// The value of a hexadecimal digit.
pub fn read_hex(b: u8) -> (r: Option<u8>)
    ensures
        r == hex_value(b),
        r is Some ==> r->0 < 16,
{
    if 48 <= b && b <= 57 {
        Some(b - 48)
    } else if 65 <= b && b <= 70 {
        Some(b - 55)
    } else if 97 <= b && b <= 102 {
        Some(b - 87)
    } else {
        None
    }
}

/// The number that two bytes after a percent sign write.
pub fn read_hex_pair(a: u8, b: u8) -> (r: Option<u8>)
    ensures
        r == hex_pair(a, b),
{
    match (read_hex(a), read_hex(b)) {
        (Some(x), Some(y)) => Some(x * 16 + y),
        (None, Some(y)) => if a == 43 {
            Some(y)
        } else {
            None
        },
        _ => None,
    }
}

/// The bytes that the bytes of an address stand for. A plus sign is a space; a percent sign that no
/// number follows stays.
pub open spec fn unescaped(s: Seq<u8>) -> Seq<u8>
    decreases s.len(),
{
    if s.len() == 0 {
        Seq::empty()
    } else if s[0] == 37 && s.len() > 2 && hex_pair(s[1], s[2]) is Some {
        seq![hex_pair(s[1], s[2])->0] + unescaped(s.skip(3))
    } else if s[0] == 43 {
        seq![32u8] + unescaped(s.skip(1))
    } else {
        seq![s[0]] + unescaped(s.skip(1))
    }
}

/// The text that bytes write, with what is no UTF-8 replaced.
pub uninterp spec fn lossy_text(bytes: Seq<u8>) -> Seq<char>;

/// `String::from_utf8_lossy`: valid UTF-8 is kept as it is. Which replacement characters stand for
/// invalid bytes is not stated.
#[verifier::external_body]
pub(crate) fn text_from_bytes(bytes: &Vec<u8>) -> (r: String)
    ensures
        r@ == if valid_utf8(bytes@) {
            decode_utf8(bytes@)
        } else {
            lossy_text(bytes@)
        },
{
    String::from_utf8_lossy(bytes).into_owned()
}

/// The text that a text of an address stands for.
pub open spec fn url_decoded(s: Seq<char>) -> Seq<char> {
    let bytes = unescaped(encode_utf8(s));
    if valid_utf8(bytes) {
        decode_utf8(bytes)
    } else {
        lossy_text(bytes)
    }
}

/// Reads a text of an address.
pub fn urldecode(raw: &str) -> (r: String)
    ensures
        r@ == url_decoded(raw@),
{
    let bytes = raw.as_bytes();
    let mut out: Vec<u8> = Vec::new();
    let mut i: usize = 0;
    assert(bytes@.skip(0) =~= bytes@);
    assert(out@ + unescaped(bytes@) =~= unescaped(bytes@));
    while i < bytes.len()
        invariant
            i <= bytes@.len(),
            unescaped(bytes@) == out@ + unescaped(bytes@.skip(i as int)),
        decreases bytes@.len() - i,
    {
        let b: u8 = bytes[i];
        let ghost rest = bytes@.skip(i as int);
        let ghost before = out@;
        let rest_len: usize = bytes.len() - i;
        let mut pair: Option<u8> = None;
        if b == 37 && rest_len > 2 {
            pair = read_hex_pair(bytes[i + 1], bytes[i + 2]);
        }
        match pair {
            Some(value) => {
                out.push(value);
                assert(rest.skip(3) =~= bytes@.skip(i + 3));
                assert(before + (seq![value] + unescaped(rest.skip(3))) =~= out@ + unescaped(
                    rest.skip(3),
                ));
                i += 3;
            },
            None => {
                let next: u8 = if b == 43 {
                    32
                } else {
                    b
                };
                out.push(next);
                assert(rest.skip(1) =~= bytes@.skip(i + 1));
                assert(before + (seq![next] + unescaped(rest.skip(1))) =~= out@ + unescaped(
                    rest.skip(1),
                ));
                i += 1;
            },
        }
    }
    assert(bytes@.skip(i as int) =~= Seq::<u8>::empty());
    assert(out@ + Seq::<u8>::empty() =~= out@);
    text_from_bytes(&out)
}

// ---------------------------------------------------------------------------
// There and back
// ---------------------------------------------------------------------------

proof fn lemma_escaped_is_ascii(bytes: Seq<u8>)
    ensures
        forall|i: int| 0 <= i < escaped(bytes).len() ==> #[trigger] escaped(bytes)[i] < 128,
    decreases bytes.len(),
{
    if bytes.len() > 0 {
        let before = escaped(bytes.drop_last());
        let last = escaped_byte(bytes.last());
        lemma_escaped_is_ascii(bytes.drop_last());
        assert forall|i: int| 0 <= i < escaped(bytes).len() implies #[trigger] escaped(bytes)[i]
            < 128 by {
            if i < before.len() {
                assert(escaped(bytes)[i] == before[i]);
            } else {
                assert(escaped(bytes)[i] == last[i - before.len()]);
            }
        }
    }
}

/// An escaped byte is read back, whatever follows it.
proof fn lemma_unescape_byte(b: u8, rest: Seq<u8>)
    ensures
        unescaped(escaped_byte(b) + rest) == seq![b] + unescaped(rest),
{
    let s = escaped_byte(b) + rest;
    if unreserved(b) {
        assert(s[0] == b);
        assert(s.skip(1) =~= rest);
    } else {
        let high = (b / 16) as u8;
        let low = (b % 16) as u8;
        assert(s[0] == 37 && s[1] == hex_digit(high) && s[2] == hex_digit(low));
        assert(hex_value(s[1]) == Some(high));
        assert(hex_value(s[2]) == Some(low));
        assert(high * 16 + low == b);
        assert(hex_pair(s[1], s[2]) == Some(b));
        assert(s.skip(3) =~= rest);
    }
}

proof fn lemma_unescape_escaped(bytes: Seq<u8>, rest: Seq<u8>)
    ensures
        unescaped(escaped(bytes) + rest) == bytes + unescaped(rest),
    decreases bytes.len(),
{
    if bytes.len() == 0 {
        assert(escaped(bytes) + rest =~= rest);
        assert(bytes + unescaped(rest) =~= unescaped(rest));
    } else {
        let head = bytes.drop_last();
        let last = bytes.last();
        assert(escaped(bytes) + rest =~= escaped(head) + (escaped_byte(last) + rest));
        lemma_unescape_escaped(head, escaped_byte(last) + rest);
        lemma_unescape_byte(last, rest);
        assert(head + (seq![last] + unescaped(rest)) =~= bytes + unescaped(rest));
    }
}

/// A text in an address holds no character but letters, digits, `-`, `_`, `.`, `~` and `%`.
pub proof fn lemma_url_encoded_is_plain(s: Seq<char>, i: int)
    requires
        0 <= i < url_encoded(s).len(),
    ensures
        url_encoded(s)[i] == '%' || unreserved(url_encoded(s)[i] as u8),
        url_encoded(s)[i] <= '\u{7f}',
{
    lemma_escaped_is_plain(encode_utf8(s), i);
}

proof fn lemma_escaped_is_plain(bytes: Seq<u8>, i: int)
    requires
        0 <= i < escaped(bytes).len(),
    ensures
        escaped(bytes)[i] == 37 || unreserved(escaped(bytes)[i]),
    decreases bytes.len(),
{
    if bytes.len() > 0 {
        let before = escaped(bytes.drop_last());
        if i < before.len() {
            lemma_escaped_is_plain(bytes.drop_last(), i);
        } else {
            assert(escaped(bytes)[i] == escaped_byte(bytes.last())[i - before.len()]);
        }
    }
}

/// A text that is written in an address is read back as it was: [`urldecode`] undoes [`urlencode`].
pub proof fn lemma_url_round_trip(s: Seq<char>)
    ensures
        url_decoded(url_encoded(s)) == s,
{
    let bytes = encode_utf8(s);
    let chars = url_encoded(s);
    lemma_escaped_is_ascii(bytes);
    assert(is_ascii_chars(chars)) by {
        assert forall|i: int| 0 <= i < chars.len() implies '\0' <= #[trigger] chars[i]
            <= '\u{7f}' by {
            assert(escaped(bytes)[i] < 128);
        }
    }
    is_ascii_chars_encode_utf8(chars);
    assert(encode_utf8(chars) =~= escaped(bytes)) by {
        assert forall|i: int| 0 <= i < chars.len() implies encode_utf8(chars)[i] == escaped(
            bytes,
        )[i] by {
            assert(escaped(bytes)[i] < 128);
            assert(chars[i] as u8 == escaped(bytes)[i]);
        }
    }
    lemma_unescape_escaped(bytes, Seq::empty());
    assert(escaped(bytes) + Seq::<u8>::empty() =~= escaped(bytes));
    assert(bytes + Seq::<u8>::empty() =~= bytes);
    encode_utf8_valid_utf8(s);
    encode_utf8_decode_utf8(s);
}

} // verus!
