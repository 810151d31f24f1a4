//! IPv4 addresses as text.
use vstd::prelude::*;
use vstd::string::*;
use crate::text::{all_digits, chars_of, digits_value, parse_unsigned, pieces, split, texts};

verus! {

/// A part of an IPv4 address: one to three digits, no more than 255, without leading zeros.
pub open spec fn octet(s: Seq<char>) -> bool {
    all_digits(s) && s.len() <= 3 && digits_value(s) <= 255 && (s.len() > 1 ==> s[0] != '0')
}

/// Whether a text is an IPv4 address.
pub open spec fn is_ipv4(s: Seq<char>) -> bool {
    let parts = pieces(s, '.');
    parts.len() == 4 && octet(parts[0]) && octet(parts[1]) && octet(parts[2]) && octet(parts[3])
}

/// Whether a text is a part of an IPv4 address.
pub fn is_octet(s: &str) -> (r: bool)
    ensures
        r == octet(s@),
{
    let cs = chars_of(s);
    if cs.len() == 0 || cs.len() > 3 || (cs.len() > 1 && cs[0] == '0') {
        return false;
    }
    let mut i: usize = 0;
    while i < cs.len()
        invariant
            cs@ == s@,
            i <= cs@.len(),
            forall|k: int| 0 <= k < i ==> crate::text::digit(#[trigger] s@[k]),
        decreases cs@.len() - i,
    {
        if cs[i] < '0' || cs[i] > '9' {
            assert(!crate::text::digit(s@[i as int]));
            return false;
        }
        i += 1;
    }
    assert(all_digits(s@));
    assert(crate::text::digit(s@[0]));
    parse_unsigned(s, 255).is_some()
}

/// Whether a text is an IPv4 address.
pub fn is_ipv4_text(s: &str) -> (r: bool)
    ensures
        r == is_ipv4(s@),
{
    let parts = split(s, '.');
    assert(texts(parts@).len() == parts@.len());
    if parts.len() != 4 {
        return false;
    }
    assert(texts(parts@)[0] == parts@[0]@);
    assert(texts(parts@)[1] == parts@[1]@);
    assert(texts(parts@)[2] == parts@[2]@);
    assert(texts(parts@)[3] == parts@[3]@);
    is_octet(parts[0].as_str()) && is_octet(parts[1].as_str()) && is_octet(parts[2].as_str())
        && is_octet(parts[3].as_str())
}

} // verus!
