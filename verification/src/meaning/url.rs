//! How text is written in an address.
use vstd::prelude::*;
use crate::url::{escaped, escaped_byte, hex_value, unescaped, unreserved};

verus! {

/// The bytes that stand for themselves are those of letters, digits, `-`, `_`, `.` and `~`.
pub proof fn lemma_letters_and_digits_stay(c: char)
    requires
        c <= '\u{7f}',
    ensures
        unreserved(c as u8) <==> ('A' <= c <= 'Z') || ('a' <= c <= 'z') || ('0' <= c <= '9') || c
            == '-' || c == '_' || c == '.' || c == '~',
{
}

/// A text of such bytes is written as it is; any other byte as a percent sign and its value in two
/// hexadecimal digits, capitals among them.
pub proof fn lemma_other_bytes_are_written_in_hexadecimal(before: Seq<u8>, b: u8)
    ensures
        escaped(Seq::<u8>::empty()).len() == 0,
        unreserved(b) ==> escaped(before.push(b)) == escaped(before).push(b),
        !unreserved(b) ==> {
            let all = escaped(before.push(b));
            let n = escaped(before).len() as int;
            &&& all.len() == n + 3
            &&& all.take(n) == escaped(before)
            &&& all[n] as char == '%'
            &&& hex_value(all[n + 1]) is Some
            &&& hex_value(all[n + 2]) is Some
            &&& hex_value(all[n + 1])->0 * 16 + hex_value(all[n + 2])->0 == b
            &&& !('a' <= all[n + 1] as char <= 'z')
            &&& !('a' <= all[n + 2] as char <= 'z')
        },
{
    assert(before.push(b).drop_last() =~= before);
    let all = escaped(before.push(b));
    let n = escaped(before).len() as int;
    assert(all == escaped(before) + escaped_byte(b));
    if unreserved(b) {
        assert(all =~= escaped(before).push(b));
    } else {
        assert(all.take(n) =~= escaped(before));
        let code = escaped_byte(b);
        assert(all[n] == code[0] && all[n + 1] == code[1] && all[n + 2] == code[2]);
    }
}

/// A hexadecimal digit has the value that it is written for, as a capital or a small letter.
pub proof fn lemma_hexadecimal_digits_have_values(c: char)
    requires
        c <= '\u{7f}',
    ensures
        '0' <= c <= '9' ==> hex_value(c as u8) == Some((c as u8 - '0' as u8) as u8),
        'A' <= c <= 'F' ==> hex_value(c as u8) == Some((c as u8 - 'A' as u8 + 10) as u8),
        'a' <= c <= 'f' ==> hex_value(c as u8) == Some((c as u8 - 'a' as u8 + 10) as u8),
        hex_value(c as u8) is Some <==> ('0' <= c <= '9') || ('A' <= c <= 'F') || ('a' <= c
            <= 'f'),
{
}

/// A percent sign and two hexadecimal digits are read as the byte that they write, a plus sign as a
/// space, and any other byte as itself.
pub proof fn lemma_bytes_are_read(b: u8, x: u8, y: u8, rest: Seq<u8>)
    ensures
        hex_value(x) is Some && hex_value(y) is Some ==> unescaped(seq![37u8, x, y] + rest)
            == seq![(hex_value(x)->0 * 16 + hex_value(y)->0) as u8] + unescaped(rest),
        unescaped(seq![43u8] + rest) == seq![32u8] + unescaped(rest),
        b != 37 && b != 43 ==> unescaped(seq![b] + rest) == seq![b] + unescaped(rest),
        unescaped(Seq::<u8>::empty()).len() == 0,
{
    let three = seq![37u8, x, y] + rest;
    assert(three[0] == 37 && three[1] == x && three[2] == y);
    assert(three.skip(3) =~= rest);
    let plus = seq![43u8] + rest;
    assert(plus.skip(1) =~= rest);
    assert(plus[0] == 43);
    let one = seq![b] + rest;
    assert(one.skip(1) =~= rest);
    assert(one[0] == b);
}

/// A percent sign that no two digits follow stands for itself.
pub proof fn lemma_lone_percent_signs_stay(rest: Seq<u8>)
    requires
        rest.len() < 2 || hex_value(rest[1]) is None || (hex_value(rest[0]) is None && rest[0]
            != 43),
    ensures
        unescaped(seq![37u8] + rest) == seq![37u8] + unescaped(rest),
{
    let s = seq![37u8] + rest;
    assert(s.skip(1) =~= rest);
    if rest.len() >= 2 {
        assert(s[1] == rest[0] && s[2] == rest[1]);
    }
}

} // verus!
