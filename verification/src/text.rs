//! Text as sequences of characters: trimming, case, searching, splitting, joining and decimals.
use vstd::prelude::*;
use vstd::string::*;
use vstd::utf8::*;

verus! {

/// `String::push` appends one character.
pub assume_specification[ String::push ](s: &mut String, c: char)
    ensures
        final(s)@ == old(s)@.push(c),
;

// ---------------------------------------------------------------------------
// Equality and copying
// ---------------------------------------------------------------------------

/// UTF-8 encodings are equal only for equal texts.
pub proof fn lemma_utf8_injective(a: Seq<char>, b: Seq<char>)
    requires
        encode_utf8(a) == encode_utf8(b),
    ensures
        a == b,
{
    encode_utf8_decode_utf8(a);
    encode_utf8_decode_utf8(b);
}

/// Whether two byte slices hold the same bytes.
pub fn same_bytes(a: &[u8], b: &[u8]) -> (r: bool)
    ensures
        r == (a@ == b@),
{
    if a.len() != b.len() {
        return false;
    }
    let mut i: usize = 0;
    while i < a.len()
        invariant
            i <= a@.len(),
            a@.len() == b@.len(),
            forall|k: int| 0 <= k < i ==> a@[k] == b@[k],
        decreases a@.len() - i,
    {
        if a[i] != b[i] {
            return false;
        }
        i += 1;
    }
    assert(a@ =~= b@);
    true
}

/// Whether two texts are the same.
pub fn same(a: &str, b: &str) -> (r: bool)
    ensures
        r == (a@ == b@),
{
    let r = same_bytes(a.as_bytes(), b.as_bytes());
    proof {
        if r {
            lemma_utf8_injective(a@, b@);
        }
    }
    r
}

/// An owned copy of a text.
pub fn owned(s: &str) -> (r: String)
    ensures
        r@ == s@,
{
    String::from_str(s)
}

/// The characters of a text.
pub fn chars_of(s: &str) -> (r: Vec<char>)
    ensures
        r@ == s@,
{
    let mut r: Vec<char> = Vec::new();
    for c in it: s.chars()
        invariant
            r@ == it.history@,
            it.seq() == s@,
    {
        r.push(c);
    }
    r
}

/// The text made of the characters from `from` up to `to`.
pub fn string_from(chars: &[char], from: usize, to: usize) -> (r: String)
    requires
        from <= to <= chars@.len(),
    ensures
        r@ == chars@.subrange(from as int, to as int),
{
    let mut r = String::new();
    let mut i: usize = from;
    while i < to
        invariant
            from <= i <= to <= chars@.len(),
            r@ == chars@.subrange(from as int, i as int),
        decreases to - i,
    {
        r.push(chars[i]);
        assert(chars@.subrange(from as int, i as int).push(chars@[i as int]) =~= chars@.subrange(
            from as int,
            i + 1,
        ));
        i += 1;
    }
    r
}

// ---------------------------------------------------------------------------
// Concatenation
// ---------------------------------------------------------------------------

/// Two texts in a row.
pub fn cat2(a: &str, b: &str) -> (r: String)
    ensures
        r@ == a@ + b@,
{
    let mut r = String::from_str(a);
    r.append(b);
    r
}

/// Three texts in a row.
pub fn cat3(a: &str, b: &str, c: &str) -> (r: String)
    ensures
        r@ == a@ + b@ + c@,
{
    let mut r = cat2(a, b);
    r.append(c);
    r
}

/// Four texts in a row.
pub fn cat4(a: &str, b: &str, c: &str, d: &str) -> (r: String)
    ensures
        r@ == a@ + b@ + c@ + d@,
{
    let mut r = cat3(a, b, c);
    r.append(d);
    r
}

/// Five texts in a row.
pub fn cat5(a: &str, b: &str, c: &str, d: &str, e: &str) -> (r: String)
    ensures
        r@ == a@ + b@ + c@ + d@ + e@,
{
    let mut r = cat4(a, b, c, d);
    r.append(e);
    r
}

/// Six texts in a row.
pub fn cat6(a: &str, b: &str, c: &str, d: &str, e: &str, f: &str) -> (r: String)
    ensures
        r@ == a@ + b@ + c@ + d@ + e@ + f@,
{
    let mut r = cat5(a, b, c, d, e);
    r.append(f);
    r
}

/// Seven texts in a row.
pub fn cat7(a: &str, b: &str, c: &str, d: &str, e: &str, f: &str, g: &str) -> (r: String)
    ensures
        r@ == a@ + b@ + c@ + d@ + e@ + f@ + g@,
{
    let mut r = cat6(a, b, c, d, e, f);
    r.append(g);
    r
}

/// Eight texts in a row.
pub fn cat8(a: &str, b: &str, c: &str, d: &str, e: &str, f: &str, g: &str, h: &str) -> (r: String)
    ensures
        r@ == a@ + b@ + c@ + d@ + e@ + f@ + g@ + h@,
{
    let mut r = cat7(a, b, c, d, e, f, g);
    r.append(h);
    r
}

// ---------------------------------------------------------------------------
// White space
// ---------------------------------------------------------------------------

/// Whether a character has the Unicode property White_Space.
pub open spec fn space(c: char) -> bool {
    ||| '\u{9}' <= c <= '\u{d}'
    ||| c == ' '
    ||| c == '\u{85}'
    ||| c == '\u{a0}'
    ||| c == '\u{1680}'
    ||| '\u{2000}' <= c <= '\u{200a}'
    ||| c == '\u{2028}'
    ||| c == '\u{2029}'
    ||| c == '\u{202f}'
    ||| c == '\u{205f}'
    ||| c == '\u{3000}'
}

/// Whether `c` is white space.
pub fn is_space(c: char) -> (r: bool)
    ensures
        r == space(c),
{
    ('\u{9}' <= c && c <= '\u{d}') || c == ' ' || c == '\u{85}' || c == '\u{a0}' || c == '\u{1680}'
        || ('\u{2000}' <= c && c <= '\u{200a}') || c == '\u{2028}' || c == '\u{2029}' || c
        == '\u{202f}' || c == '\u{205f}' || c == '\u{3000}'
}

/// A text without its leading white space.
pub open spec fn trimmed_start(s: Seq<char>) -> Seq<char>
    decreases s.len(),
{
    if s.len() > 0 && space(s[0]) {
        trimmed_start(s.skip(1))
    } else {
        s
    }
}

/// A text without its trailing white space.
pub open spec fn trimmed_end(s: Seq<char>) -> Seq<char>
    decreases s.len(),
{
    if s.len() > 0 && space(s.last()) {
        trimmed_end(s.drop_last())
    } else {
        s
    }
}

/// A text without the white space around it.
pub open spec fn trimmed(s: Seq<char>) -> Seq<char> {
    trimmed_end(trimmed_start(s))
}

/// Whether a text holds nothing but white space.
pub open spec fn blank(s: Seq<char>) -> bool {
    trimmed(s).len() == 0
}

/// `s` without the white space around it.
pub fn trim<'a>(s: &'a str) -> (r: &'a str)
    ensures
        r@ == trimmed(s@),
{
    let chars = chars_of(s);
    let mut from: usize = 0;
    assert(s@.skip(0) =~= s@);
    while from < chars.len() && is_space(chars[from])
        invariant
            from <= chars@.len(),
            chars@ == s@,
            trimmed_start(s@) == trimmed_start(s@.skip(from as int)),
        decreases chars@.len() - from,
    {
        assert(s@.skip(from as int).skip(1) =~= s@.skip(from + 1));
        from += 1;
    }
    assert(s@.skip(from as int) =~= s@.subrange(from as int, s@.len() as int));
    let mut to: usize = chars.len();
    while to > from && is_space(chars[to - 1])
        invariant
            from <= to <= chars@.len(),
            chars@ == s@,
            trimmed(s@) == trimmed_end(s@.subrange(from as int, to as int)),
        decreases to,
    {
        assert(s@.subrange(from as int, to as int).drop_last() =~= s@.subrange(
            from as int,
            to - 1,
        ));
        to -= 1;
    }
    s.substring_char(from, to)
}

/// `s` without its leading white space.
pub fn trim_start<'a>(s: &'a str) -> (r: &'a str)
    ensures
        r@ == trimmed_start(s@),
{
    let chars = chars_of(s);
    let mut from: usize = 0;
    assert(s@.skip(0) =~= s@);
    while from < chars.len() && is_space(chars[from])
        invariant
            from <= chars@.len(),
            chars@ == s@,
            trimmed_start(s@) == trimmed_start(s@.skip(from as int)),
        decreases chars@.len() - from,
    {
        assert(s@.skip(from as int).skip(1) =~= s@.skip(from + 1));
        from += 1;
    }
    assert(s@.skip(from as int) =~= s@.subrange(from as int, s@.len() as int));
    s.substring_char(from, chars.len())
}

/// Whether `s` holds nothing but white space.
pub fn is_blank(s: &str) -> (r: bool)
    ensures
        r == blank(s@),
{
    trim(s).is_empty()
}

/// Trimming takes nothing from a text that has no white space at either end.
pub proof fn lemma_trimmed_fixed(s: Seq<char>)
    requires
        s.len() > 0 ==> !space(s[0]) && !space(s.last()),
    ensures
        trimmed(s) == s,
{
}

/// What is left after trimming the end is a prefix that ends in no white space.
proof fn lemma_trimmed_end_shape(s: Seq<char>)
    ensures
        trimmed_end(s).len() <= s.len(),
        trimmed_end(s) == s.take(trimmed_end(s).len() as int),
        trimmed_end(s).len() > 0 ==> !space(trimmed_end(s).last()),
    decreases s.len(),
{
    if s.len() > 0 && space(s.last()) {
        lemma_trimmed_end_shape(s.drop_last());
        let n = trimmed_end(s).len() as int;
        assert(s.drop_last().take(n) =~= s.take(n));
    } else {
        assert(s.take(s.len() as int) =~= s);
    }
}

proof fn lemma_trimmed_start_shape(s: Seq<char>)
    ensures
        trimmed_start(s).len() > 0 ==> !space(trimmed_start(s)[0]),
    decreases s.len(),
{
    if s.len() > 0 && space(s[0]) {
        lemma_trimmed_start_shape(s.skip(1));
    }
}

/// Trimming twice is trimming once.
pub proof fn lemma_trim_idempotent(s: Seq<char>)
    ensures
        trimmed(trimmed(s)) == trimmed(s),
{
    let a = trimmed_start(s);
    lemma_trimmed_start_shape(s);
    lemma_trimmed_end_shape(a);
    let b = trimmed_end(a);
    if b.len() > 0 {
        assert(b[0] == a[0]);
    }
    lemma_trimmed_fixed(b);
}

// ---------------------------------------------------------------------------
// ASCII case
// ---------------------------------------------------------------------------

/// A character with an ASCII capital made small.
pub open spec fn lower_char(c: char) -> char {
    if 'A' <= c <= 'Z' {
        ((c as u8 + 32) as u8) as char
    } else {
        c
    }
}

/// A character with an ASCII small letter made capital.
pub open spec fn upper_char(c: char) -> char {
    if 'a' <= c <= 'z' {
        ((c as u8 - 32) as u8) as char
    } else {
        c
    }
}

/// A text with its ASCII capitals made small.
pub open spec fn lowered(s: Seq<char>) -> Seq<char> {
    s.map_values(|c: char| lower_char(c))
}

/// A text with its ASCII small letters made capitals.
pub open spec fn uppered(s: Seq<char>) -> Seq<char> {
    s.map_values(|c: char| upper_char(c))
}

/// `c` with an ASCII capital made small.
pub fn to_lower_char(c: char) -> (r: char)
    ensures
        r == lower_char(c),
{
    if 'A' <= c && c <= 'Z' {
        (c as u8 + 32) as char
    } else {
        c
    }
}

/// `c` with an ASCII small letter made capital.
pub fn to_upper_char(c: char) -> (r: char)
    ensures
        r == upper_char(c),
{
    if 'a' <= c && c <= 'z' {
        (c as u8 - 32) as char
    } else {
        c
    }
}

/// `s` with its ASCII capitals made small.
pub fn ascii_lower(s: &str) -> (r: String)
    ensures
        r@ == lowered(s@),
{
    let mut r = String::new();
    for c in it: s.chars()
        invariant
            r@ == lowered(it.history@),
            it.seq() == s@,
    {
        let ghost before = it.history@;
        r.push(to_lower_char(c));
        assert(lowered(before.push(c)) =~= lowered(before).push(lower_char(c)));
    }
    r
}

/// `s` with its ASCII small letters made capitals.
pub fn ascii_upper(s: &str) -> (r: String)
    ensures
        r@ == uppered(s@),
{
    let mut r = String::new();
    for c in it: s.chars()
        invariant
            r@ == uppered(it.history@),
            it.seq() == s@,
    {
        let ghost before = it.history@;
        r.push(to_upper_char(c));
        assert(uppered(before.push(c)) =~= uppered(before).push(upper_char(c)));
    }
    r
}

/// Whether two texts differ at most in the case of ASCII letters.
pub open spec fn alike(a: Seq<char>, b: Seq<char>) -> bool {
    lowered(a) == lowered(b)
}

/// Whether two texts differ at most in the case of ASCII letters.
pub fn is_alike(a: &str, b: &str) -> (r: bool)
    ensures
        r == alike(a@, b@),
{
    let x = ascii_lower(a);
    let y = ascii_lower(b);
    same(x.as_str(), y.as_str())
}

// ---------------------------------------------------------------------------
// Searching
// ---------------------------------------------------------------------------

/// Whether `part` stands in `s` at index `i`.
pub open spec fn occurs_at(s: Seq<char>, part: Seq<char>, i: int) -> bool {
    0 <= i <= s.len() - part.len() && s.subrange(i, i + part.len()) == part
}

/// Whether `part` stands anywhere in `s`.
pub open spec fn has(s: Seq<char>, part: Seq<char>) -> bool {
    exists|i: int| occurs_at(s, part, i)
}

/// Whether `part` stands in `s` at index `i`.
pub fn is_at(s: &[char], part: &[char], i: usize) -> (r: bool)
    ensures
        r == occurs_at(s@, part@, i as int),
{
    if s.len() < part.len() || i > s.len() - part.len() {
        return false;
    }
    let n: usize = s.len();
    let mut k: usize = 0;
    while k < part.len()
        invariant
            k <= part@.len(),
            i <= n - part@.len(),
            n == s@.len(),
            forall|j: int| 0 <= j < k ==> s@[i + j] == part@[j],
        decreases part@.len() - k,
    {
        if s[i + k] != part[k] {
            assert(s@.subrange(i as int, i + part@.len())[k as int] == s@[i + k]);
            return false;
        }
        k += 1;
    }
    assert(s@.subrange(i as int, i + part@.len()) =~= part@);
    true
}

/// Whether `part` stands anywhere in `s`.
pub fn contains(s: &str, part: &str) -> (r: bool)
    ensures
        r == has(s@, part@),
{
    let cs = chars_of(s);
    let ps = chars_of(part);
    if cs.len() < ps.len() {
        return false;
    }
    let last: usize = cs.len() - ps.len();
    let mut i: usize = 0;
    while i <= last
        invariant
            cs@ == s@,
            ps@ == part@,
            i <= last + 1,
            last == cs@.len() - ps@.len(),
            forall|j: int| 0 <= j < i ==> !occurs_at(s@, part@, j),
        decreases last + 1 - i,
    {
        if is_at(cs.as_slice(), ps.as_slice(), i) {
            return true;
        }
        if i == last {
            assert(forall|j: int| !occurs_at(s@, part@, j));
            return false;
        }
        i += 1;
    }
    false
}

/// Whether `s` starts with `part`.
pub open spec fn begins(s: Seq<char>, part: Seq<char>) -> bool {
    occurs_at(s, part, 0)
}

/// Whether `s` starts with `part`.
pub fn starts_with(s: &str, part: &str) -> (r: bool)
    ensures
        r == begins(s@, part@),
{
    let cs = chars_of(s);
    let ps = chars_of(part);
    is_at(cs.as_slice(), ps.as_slice(), 0)
}

/// Whether `s` ends with `part`.
pub open spec fn ends(s: Seq<char>, part: Seq<char>) -> bool {
    occurs_at(s, part, s.len() - part.len())
}

/// What follows `part` at the start of `s`, if `s` starts with it.
pub fn strip_prefix<'a>(s: &'a str, part: &str) -> (r: Option<&'a str>)
    ensures
        r is Some == begins(s@, part@),
        r is Some ==> r->0@ == s@.skip(part@.len() as int),
{
    let cs = chars_of(s);
    let ps = chars_of(part);
    if is_at(cs.as_slice(), ps.as_slice(), 0) {
        assert(s@.skip(part@.len() as int) =~= s@.subrange(part@.len() as int, s@.len() as int));
        Some(s.substring_char(ps.len(), cs.len()))
    } else {
        None
    }
}

/// What stands before `part` at the end of `s`, if `s` ends with it.
pub fn strip_suffix<'a>(s: &'a str, part: &str) -> (r: Option<&'a str>)
    ensures
        r is Some == ends(s@, part@),
        r is Some ==> r->0@ == s@.take(s@.len() - part@.len()),
{
    let cs = chars_of(s);
    let ps = chars_of(part);
    if cs.len() >= ps.len() && is_at(cs.as_slice(), ps.as_slice(), cs.len() - ps.len()) {
        assert(s@.take(s@.len() - part@.len()) =~= s@.subrange(0, s@.len() - part@.len()));
        Some(s.substring_char(0, cs.len() - ps.len()))
    } else {
        None
    }
}

/// The index of the first `c` in `s` from `i` on; the length of `s` where there is none.
pub open spec fn find_char(s: Seq<char>, c: char, i: int) -> int
    decreases s.len() - i,
{
    if i < 0 || i >= s.len() {
        s.len() as int
    } else if s[i] == c {
        i
    } else {
        find_char(s, c, i + 1)
    }
}

/// `find_char` finds the first occurrence.
pub proof fn lemma_find_char(s: Seq<char>, c: char, i: int)
    requires
        0 <= i <= s.len(),
    ensures
        i <= find_char(s, c, i) <= s.len(),
        find_char(s, c, i) < s.len() ==> s[find_char(s, c, i)] == c,
        forall|k: int| i <= k < find_char(s, c, i) ==> s[k] != c,
    decreases s.len() - i,
{
    if i < s.len() && s[i] != c {
        lemma_find_char(s, c, i + 1);
    }
}

/// The index of the first `c` in `s` from `from` on; the length of `s` where there is none.
pub fn index_of(s: &[char], c: char, from: usize) -> (r: usize)
    requires
        from <= s@.len(),
    ensures
        r == find_char(s@, c, from as int),
        from <= r <= s@.len(),
{
    let mut i: usize = from;
    while i < s.len()
        invariant
            from <= i <= s@.len(),
            find_char(s@, c, from as int) == find_char(s@, c, i as int),
        decreases s@.len() - i,
    {
        if s[i] == c {
            return i;
        }
        i += 1;
    }
    i
}

/// The texts before and after the first `c` in `s`.
pub open spec fn cut(s: Seq<char>, c: char) -> Option<(Seq<char>, Seq<char>)> {
    let k = find_char(s, c, 0);
    if k < s.len() {
        Some((s.take(k), s.skip(k + 1)))
    } else {
        None
    }
}

/// The texts before and after the first `c` in `s`.
pub fn split_once<'a>(s: &'a str, c: char) -> (r: Option<(&'a str, &'a str)>)
    ensures
        match (r, cut(s@, c)) {
            (Some(found), Some(parts)) => found.0@ == parts.0 && found.1@ == parts.1,
            (None, None) => true,
            _ => false,
        },
{
    let cs = chars_of(s);
    let k: usize = index_of(cs.as_slice(), c, 0);
    if k < cs.len() {
        assert(s@.take(k as int) =~= s@.subrange(0, k as int));
        assert(s@.skip(k + 1) =~= s@.subrange(k + 1, s@.len() as int));
        Some((s.substring_char(0, k), s.substring_char(k + 1, cs.len())))
    } else {
        None
    }
}

/// The index of the first `part` in `s` from `i` on; one more than the length of `s` where there is
/// none.
pub open spec fn find_text(s: Seq<char>, part: Seq<char>, i: int) -> int
    decreases s.len() + 1 - i,
{
    if i < 0 || i > s.len() {
        s.len() as int + 1
    } else if occurs_at(s, part, i) {
        i
    } else {
        find_text(s, part, i + 1)
    }
}

/// The texts before and after the first `sep` in `s`.
pub open spec fn cut_at(s: Seq<char>, sep: Seq<char>) -> Option<(Seq<char>, Seq<char>)> {
    let k = find_text(s, sep, 0);
    if k <= s.len() {
        Some((s.take(k), s.skip(k + sep.len())))
    } else {
        None
    }
}

/// The texts before and after the first `sep` in `s`.
pub fn split_once_at<'a>(s: &'a str, sep: &str) -> (r: Option<(&'a str, &'a str)>)
    ensures
        match (r, cut_at(s@, sep@)) {
            (Some(found), Some(parts)) => found.0@ == parts.0 && found.1@ == parts.1,
            (None, None) => true,
            _ => false,
        },
{
    let cs = chars_of(s);
    let ps = chars_of(sep);
    let mut i: usize = 0;
    while i < cs.len() && !is_at(cs.as_slice(), ps.as_slice(), i)
        invariant
            cs@ == s@,
            ps@ == sep@,
            i <= cs@.len(),
            find_text(s@, sep@, 0) == find_text(s@, sep@, i as int),
        decreases cs@.len() - i,
    {
        i += 1;
    }
    if is_at(cs.as_slice(), ps.as_slice(), i) {
        assert(s@.take(i as int) =~= s@.subrange(0, i as int));
        assert(s@.skip(i + sep@.len()) =~= s@.subrange(i + sep@.len(), s@.len() as int));
        Some((s.substring_char(0, i), s.substring_char(i + ps.len(), cs.len())))
    } else {
        assert(find_text(s@, sep@, i + 1) == s@.len() + 1);
        None
    }
}

// ---------------------------------------------------------------------------
// Lists of texts
// ---------------------------------------------------------------------------

/// What the items of a list stand for.
pub open spec fn views<T: View>(v: Seq<T>) -> Seq<T::V> {
    Seq::new(v.len(), |i: int| v[i]@)
}

/// The texts of a list of strings.
#[verifier::inline]
pub open spec fn texts(v: Seq<String>) -> Seq<Seq<char>> {
    views(v)
}

/// What an optional value stands for.
pub open spec fn opt_view<T: View>(v: Option<T>) -> Option<T::V> {
    match v {
        Some(x) => Some(x@),
        None => None,
    }
}

/// What the items of an optional list stand for.
pub open spec fn opt_views<T: View>(v: Option<Vec<T>>) -> Option<Seq<T::V>> {
    match v {
        Some(x) => Some(views(x@)),
        None => None,
    }
}

/// The text of an optional string.
#[verifier::inline]
pub open spec fn opt_text(v: Option<String>) -> Option<Seq<char>> {
    opt_view(v)
}

/// The texts of an optional list of strings.
#[verifier::inline]
pub open spec fn opt_texts(v: Option<Vec<String>>) -> Option<Seq<Seq<char>>> {
    opt_views(v)
}

/// The numbers of an optional list.
pub open spec fn opt_numbers(v: Option<Vec<u32>>) -> Option<Seq<u32>> {
    match v {
        Some(x) => Some(x@),
        None => None,
    }
}

/// Adding an item to a list adds what it stands for.
pub broadcast proof fn lemma_views_push<T: View>(v: Seq<T>, x: T)
    ensures
        #[trigger] views(v.push(x)) == views(v).push(x@),
{
    assert(views(v.push(x)) =~= views(v).push(x@));
}

/// A list without items stands for no items.
pub broadcast proof fn lemma_views_empty<T: View>(v: Seq<T>)
    requires
        v.len() == 0,
    ensures
        #[trigger] views(v) == Seq::<T::V>::empty(),
{
    assert(views(v) =~= Seq::<T::V>::empty());
}

/// Lists in a row stand for what they stand for in a row.
pub broadcast proof fn lemma_views_add<T: View>(a: Seq<T>, b: Seq<T>)
    ensures
        #[trigger] views(a + b) == views(a) + views(b),
{
    assert(views(a + b) =~= views(a) + views(b));
}

pub broadcast group group_views {
    lemma_views_push,
    lemma_views_empty,
    lemma_views_add,
}

/// A text, or an empty one.
pub open spec fn or_empty(text: Option<Seq<char>>) -> Seq<char> {
    match text {
        Some(t) => t,
        None => Seq::empty(),
    }
}

/// A text, or an empty one.
pub fn text_or_empty(text: &Option<String>) -> (r: String)
    ensures
        r@ == or_empty(opt_text(*text)),
{
    match text {
        Some(t) => t.clone(),
        None => {
            let r = String::new();
            assert(r@ =~= Seq::<char>::empty());
            r
        },
    }
}

/// A copy of an optional string.
pub fn copy_opt_text(v: &Option<String>) -> (r: Option<String>)
    ensures
        opt_text(r) == opt_text(*v),
{
    match v {
        Some(x) => Some(x.clone()),
        None => None,
    }
}

/// A copy of an optional list of strings.
pub fn copy_opt_texts(v: &Option<Vec<String>>) -> (r: Option<Vec<String>>)
    ensures
        opt_texts(r) == opt_texts(*v),
{
    match v {
        Some(x) => Some(copy_texts(x)),
        None => None,
    }
}

/// A copy of a list of numbers.
pub fn copy_numbers(v: &Vec<u32>) -> (r: Vec<u32>)
    ensures
        r@ == v@,
{
    let mut r: Vec<u32> = Vec::new();
    let mut i: usize = 0;
    while i < v.len()
        invariant
            i <= v@.len(),
            r@ == v@.take(i as int),
        decreases v@.len() - i,
    {
        r.push(v[i]);
        assert(v@.take(i as int).push(v@[i as int]) =~= v@.take(i + 1));
        i += 1;
    }
    assert(v@.take(i as int) =~= v@);
    r
}

/// A copy of an optional list of numbers.
pub fn copy_opt_numbers(v: &Option<Vec<u32>>) -> (r: Option<Vec<u32>>)
    ensures
        opt_numbers(r) == opt_numbers(*v),
{
    match v {
        Some(x) => Some(copy_numbers(x)),
        None => None,
    }
}

/// Whether two lists of strings hold the same texts.
pub fn same_texts(a: &Vec<String>, b: &Vec<String>) -> (r: bool)
    ensures
        r == (texts(a@) == texts(b@)),
{
    if a.len() != b.len() {
        assert(texts(a@).len() != texts(b@).len());
        return false;
    }
    let mut i: usize = 0;
    while i < a.len()
        invariant
            i <= a@.len(),
            a@.len() == b@.len(),
            forall|k: int| 0 <= k < i ==> a@[k]@ == b@[k]@,
        decreases a@.len() - i,
    {
        if !same(a[i].as_str(), b[i].as_str()) {
            assert(texts(a@)[i as int] != texts(b@)[i as int]);
            return false;
        }
        i += 1;
    }
    assert(texts(a@) =~= texts(b@));
    true
}

/// A copy of a list of strings.
pub fn copy_texts(v: &Vec<String>) -> (r: Vec<String>)
    ensures
        texts(r@) == texts(v@),
{
    broadcast use group_views;

    let mut r: Vec<String> = Vec::new();
    let mut i: usize = 0;
    while i < v.len()
        invariant
            i <= v@.len(),
            texts(r@) == texts(v@).take(i as int),
        decreases v@.len() - i,
    {
        r.push(owned(v[i].as_str()));
        assert(texts(v@).take(i as int).push(v@[i as int]@) =~= texts(v@).take(i + 1));
        i += 1;
    }
    assert(texts(v@).take(i as int) =~= texts(v@));
    r
}

/// Whether a list of strings holds the text `s`.
pub fn lists(v: &Vec<String>, s: &str) -> (r: bool)
    ensures
        r == texts(v@).contains(s@),
{
    let mut i: usize = 0;
    while i < v.len()
        invariant
            i <= v@.len(),
            forall|k: int| 0 <= k < i ==> v@[k]@ != s@,
        decreases v@.len() - i,
    {
        if same(v[i].as_str(), s) {
            assert(texts(v@)[i as int] == s@);
            return true;
        }
        i += 1;
    }
    assert(!texts(v@).contains(s@)) by {
        if texts(v@).contains(s@) {
            let k = choose|k: int| 0 <= k < texts(v@).len() && texts(v@)[k] == s@;
            assert(v@[k]@ == s@);
        }
    }
    false
}

/// The first `n` texts with `sep` between neighbours.
pub open spec fn joined_to(v: Seq<Seq<char>>, sep: Seq<char>, n: int) -> Seq<char>
    decreases n,
{
    if n <= 0 {
        Seq::empty()
    } else if n == 1 {
        v[0]
    } else {
        joined_to(v, sep, n - 1) + sep + v[n - 1]
    }
}

/// The texts with `sep` between neighbours.
pub open spec fn joined(v: Seq<Seq<char>>, sep: Seq<char>) -> Seq<char> {
    joined_to(v, sep, v.len() as int)
}

/// The strings with `sep` between neighbours.
pub fn join(v: &Vec<String>, sep: &str) -> (r: String)
    ensures
        r@ == joined(texts(v@), sep@),
{
    let mut r = String::new();
    let mut i: usize = 0;
    while i < v.len()
        invariant
            i <= v@.len(),
            r@ == joined_to(texts(v@), sep@, i as int),
        decreases v@.len() - i,
    {
        if i > 0 {
            r.append(sep);
        }
        r.append(v[i].as_str());
        assert(Seq::<char>::empty() + v@[i as int]@ =~= v@[i as int]@);
        i += 1;
    }
    r
}

/// The parts of `s` between occurrences of `c`.
pub open spec fn pieces(s: Seq<char>, c: char) -> Seq<Seq<char>>
    decreases s.len(),
    via pieces_decreases
{
    let k = find_char(s, c, 0);
    if k >= s.len() {
        seq![s]
    } else {
        seq![s.take(k)] + pieces(s.skip(k + 1), c)
    }
}

#[via_fn]
proof fn pieces_decreases(s: Seq<char>, c: char) {
    lemma_find_char(s, c, 0);
}

/// The parts of `s` between occurrences of `c`.
pub fn split(s: &str, c: char) -> (r: Vec<String>)
    ensures
        texts(r@) == pieces(s@, c),
{
    broadcast use group_views;

    let cs = chars_of(s);
    let mut r: Vec<String> = Vec::new();
    let mut from: usize = 0;
    assert(s@.skip(0) =~= s@);
    assert(texts(r@) + pieces(s@, c) =~= pieces(s@, c));
    loop
        invariant
            cs@ == s@,
            from <= cs@.len(),
            pieces(s@, c) == texts(r@) + pieces(s@.skip(from as int), c),
        decreases cs@.len() - from,
    {
        let ghost rest = s@.skip(from as int);
        let k: usize = index_of(cs.as_slice(), c, from);
        proof {
            lemma_find_char_skip(s@, c, from as int);
        }
        let ghost before = texts(r@);
        if k >= cs.len() {
            r.push(string_from(cs.as_slice(), from, cs.len()));
            assert(s@.subrange(from as int, s@.len() as int) =~= rest);
            assert(texts(r@) =~= before + seq![rest]);
            return r;
        }
        r.push(string_from(cs.as_slice(), from, k));
        proof {
            assert(rest.take(k - from) =~= s@.subrange(from as int, k as int));
            assert(rest.skip(k - from + 1) =~= s@.skip(k + 1));
            assert(pieces(rest, c) == seq![rest.take(k - from)] + pieces(s@.skip(k + 1), c));
            assert(texts(r@) + pieces(s@.skip(k + 1), c) =~= before + pieces(rest, c));
        }
        from = k + 1;
    }
}

/// Looking from `from` on is looking in what is left after skipping `from` characters.
pub proof fn lemma_find_char_skip(s: Seq<char>, c: char, from: int)
    requires
        0 <= from <= s.len(),
    ensures
        find_char(s, c, from) == from + find_char(s.skip(from), c, 0),
{
    lemma_find_char_shift(s, c, from, 0);
}

proof fn lemma_find_char_shift(s: Seq<char>, c: char, from: int, i: int)
    requires
        0 <= from <= s.len(),
        0 <= i <= s.len() - from,
    ensures
        find_char(s, c, from + i) == from + find_char(s.skip(from), c, i),
    decreases s.len() - from - i,
{
    if from + i < s.len() {
        assert(s.skip(from)[i] == s[from + i]);
        lemma_find_char_shift(s, c, from, i + 1);
    }
}

// ---------------------------------------------------------------------------
// Order
// ---------------------------------------------------------------------------

/// Whether a text comes before another, by the numbers of their characters from index `i` on.
pub open spec fn text_before(a: Seq<char>, b: Seq<char>, i: int) -> bool
    decreases b.len() - i,
{
    if i < 0 || i >= b.len() {
        false
    } else if i >= a.len() {
        true
    } else if a[i] != b[i] {
        a[i] < b[i]
    } else {
        text_before(a, b, i + 1)
    }
}

/// Whether a text comes before another.
pub fn is_text_before(a: &str, b: &str) -> (r: bool)
    ensures
        r == text_before(a@, b@, 0),
{
    let x = chars_of(a);
    let y = chars_of(b);
    let mut i: usize = 0;
    while i < y.len()
        invariant
            x@ == a@,
            y@ == b@,
            i <= y@.len(),
            text_before(a@, b@, 0) == text_before(a@, b@, i as int),
        decreases y@.len() - i,
    {
        if i >= x.len() {
            return true;
        }
        if x[i] != y[i] {
            return x[i] < y[i];
        }
        i += 1;
    }
    false
}

/// Coming before is transitive.
pub proof fn lemma_text_before_transitive(a: Seq<char>, b: Seq<char>, c: Seq<char>, i: int)
    requires
        i >= 0,
        text_before(a, b, i),
        text_before(b, c, i),
    ensures
        text_before(a, c, i),
    decreases c.len() - i,
{
    if i < a.len() && i < b.len() && i < c.len() && a[i] == b[i] && b[i] == c[i] {
        lemma_text_before_transitive(a, b, c, i + 1);
    }
}

/// Of two texts that agree up to an index, one comes before the other or they are the same.
pub proof fn lemma_text_total(a: Seq<char>, b: Seq<char>, i: int)
    requires
        0 <= i <= a.len(),
        i <= b.len(),
        forall|k: int| 0 <= k < i ==> a[k] == b[k],
    ensures
        text_before(a, b, i) || text_before(b, a, i) || a == b,
    decreases a.len() - i,
{
    if i < a.len() && i < b.len() && a[i] == b[i] {
        lemma_text_total(a, b, i + 1);
    } else if i == a.len() && i == b.len() {
        assert(a =~= b);
    }
}

/// No text comes both before and after another.
pub proof fn lemma_text_before_irreflexive(a: Seq<char>, b: Seq<char>, i: int)
    requires
        i >= 0,
        text_before(a, b, i),
    ensures
        !text_before(b, a, i),
    decreases b.len() - i,
{
    if i < a.len() && i < b.len() && a[i] == b[i] {
        lemma_text_before_irreflexive(a, b, i + 1);
    }
}

// ---------------------------------------------------------------------------
// Lines and words
// ---------------------------------------------------------------------------

/// A line without a carriage return at its end.
pub open spec fn chomped(line: Seq<char>) -> Seq<char> {
    if line.len() > 0 && line.last() == '\r' {
        line.drop_last()
    } else {
        line
    }
}

/// The lines of a text. The last line need not end in a line feed; one that does loses a carriage
/// return before it.
pub open spec fn lines_of(s: Seq<char>) -> Seq<Seq<char>>
    decreases s.len(),
    via lines_of_decreases
{
    let k = find_char(s, '\n', 0);
    if s.len() == 0 {
        Seq::empty()
    } else if k >= s.len() {
        seq![s]
    } else {
        seq![chomped(s.take(k))] + lines_of(s.skip(k + 1))
    }
}

#[via_fn]
proof fn lines_of_decreases(s: Seq<char>) {
    lemma_find_char(s, '\n', 0);
}

/// The lines of a text.
pub fn lines(s: &str) -> (r: Vec<String>)
    ensures
        texts(r@) == lines_of(s@),
{
    broadcast use group_views;

    let cs = chars_of(s);
    let mut r: Vec<String> = Vec::new();
    let mut from: usize = 0;
    assert(s@.skip(0) =~= s@);
    assert(texts(r@) + lines_of(s@) =~= lines_of(s@));
    while from < cs.len()
        invariant
            cs@ == s@,
            from <= cs@.len(),
            lines_of(s@) == texts(r@) + lines_of(s@.skip(from as int)),
        decreases cs@.len() - from,
    {
        let ghost rest = s@.skip(from as int);
        let ghost before = texts(r@);
        let k: usize = index_of(cs.as_slice(), '\n', from);
        proof {
            lemma_find_char_skip(s@, '\n', from as int);
        }
        if k >= cs.len() {
            r.push(string_from(cs.as_slice(), from, cs.len()));
            assert(s@.subrange(from as int, s@.len() as int) =~= rest);
            assert(texts(r@) =~= before + seq![rest]);
            return r;
        }
        let mut to: usize = k;
        if k > from && cs[k - 1] == '\r' {
            to = k - 1;
        }
        r.push(string_from(cs.as_slice(), from, to));
        proof {
            let line = rest.take(k - from);
            assert(s@.subrange(from as int, to as int) =~= chomped(line));
            assert(rest.skip(k - from + 1) =~= s@.skip(k + 1));
            assert(texts(r@) + lines_of(s@.skip(k + 1)) =~= before + lines_of(rest));
        }
        from = k + 1;
    }
    assert(s@.skip(from as int) =~= Seq::<char>::empty());
    assert(texts(r@) + Seq::<Seq<char>>::empty() =~= texts(r@));
    r
}

/// No line holds a line feed.
pub proof fn lemma_lines_are_single(s: Seq<char>, i: int, k: int)
    requires
        0 <= i < lines_of(s).len(),
        0 <= k < lines_of(s)[i].len(),
    ensures
        lines_of(s)[i][k] != '\n',
    decreases s.len(),
{
    lemma_find_char(s, '\n', 0);
    let end = find_char(s, '\n', 0);
    if end >= s.len() {
        assert(lines_of(s) =~= seq![s]);
        assert(s[k] != '\n');
    } else if i == 0 {
        assert(lines_of(s)[0] == chomped(s.take(end)));
        assert(chomped(s.take(end))[k] == s[k]);
    } else {
        let rest = s.skip(end + 1);
        assert(lines_of(s)[i] == lines_of(rest)[i - 1]);
        lemma_lines_are_single(rest, i - 1, k);
    }
}

/// Text behind a line feed that holds none itself is the last line.
pub proof fn lemma_last_line(head: Seq<char>, last: Seq<char>)
    requires
        head.len() == 0 || head.last() == '\n',
        last.len() > 0,
        forall|i: int| 0 <= i < last.len() ==> last[i] != '\n',
    ensures
        lines_of(head + last).len() > 0,
        lines_of(head + last).last() == last,
    decreases head.len(),
{
    let s = head + last;
    lemma_find_char(s, '\n', 0);
    let k = find_char(s, '\n', 0);
    if head.len() == 0 {
        assert(s =~= last);
        assert(lines_of(s) =~= seq![last]);
    } else {
        assert(s[head.len() - 1] == '\n');
        assert(k < head.len());
        let rest = head.skip(k + 1);
        assert(s.skip(k + 1) =~= rest + last);
        if rest.len() > 0 {
            assert(rest.last() == head.last());
        }
        lemma_last_line(rest, last);
        assert(lines_of(s) =~= seq![chomped(s.take(k))] + lines_of(rest + last));
    }
}

/// The index of the first white space in `s` from `i` on; the length of `s` where there is none.
pub open spec fn find_space(s: Seq<char>, i: int) -> int
    decreases s.len() - i,
{
    if i < 0 || i >= s.len() {
        s.len() as int
    } else if space(s[i]) {
        i
    } else {
        find_space(s, i + 1)
    }
}

proof fn lemma_find_space(s: Seq<char>, i: int)
    requires
        0 <= i <= s.len(),
    ensures
        i <= find_space(s, i) <= s.len(),
        i < s.len() && !space(s[i]) ==> find_space(s, i) > i,
    decreases s.len() - i,
{
    if i < s.len() && !space(s[i]) {
        lemma_find_space(s, i + 1);
    }
}

proof fn lemma_trimmed_start_len(s: Seq<char>)
    ensures
        trimmed_start(s).len() <= s.len(),
    decreases s.len(),
{
    if s.len() > 0 && space(s[0]) {
        lemma_trimmed_start_len(s.skip(1));
    }
}

/// The words of a text: what stands between white space.
pub open spec fn words_of(s: Seq<char>) -> Seq<Seq<char>>
    decreases s.len(),
    via words_of_decreases
{
    let t = trimmed_start(s);
    let k = find_space(t, 0);
    if t.len() == 0 {
        Seq::empty()
    } else {
        seq![t.take(k)] + words_of(t.skip(k))
    }
}

#[via_fn]
proof fn words_of_decreases(s: Seq<char>) {
    lemma_trimmed_start_len(s);
    lemma_trimmed_start_shape(s);
    lemma_find_space(trimmed_start(s), 0);
}

proof fn lemma_find_space_shift(s: Seq<char>, from: int, i: int)
    requires
        0 <= from <= s.len(),
        0 <= i <= s.len() - from,
    ensures
        find_space(s, from + i) == from + find_space(s.skip(from), i),
    decreases s.len() - from - i,
{
    if from + i < s.len() {
        assert(s.skip(from)[i] == s[from + i]);
        lemma_find_space_shift(s, from, i + 1);
    }
}

/// The words of a text.
pub fn words(s: &str) -> (r: Vec<String>)
    ensures
        texts(r@) == words_of(s@),
{
    broadcast use group_views;

    let cs = chars_of(s);
    let mut r: Vec<String> = Vec::new();
    let mut from: usize = 0;
    assert(s@.skip(0) =~= s@);
    assert(texts(r@) + words_of(s@) =~= words_of(s@));
    loop
        invariant
            cs@ == s@,
            from <= cs@.len(),
            words_of(s@) == texts(r@) + words_of(s@.skip(from as int)),
        decreases cs@.len() - from,
    {
        let ghost rest = s@.skip(from as int);
        let ghost before = texts(r@);
        let mut start: usize = from;
        assert(rest =~= s@.skip(start as int));
        while start < cs.len() && is_space(cs[start])
            invariant
                cs@ == s@,
                from <= start <= cs@.len(),
                trimmed_start(rest) == trimmed_start(s@.skip(start as int)),
            decreases cs@.len() - start,
        {
            assert(s@.skip(start as int).skip(1) =~= s@.skip(start + 1));
            start += 1;
        }
        let ghost t = s@.skip(start as int);
        assert(trimmed_start(rest) == t);
        if start >= cs.len() {
            assert(texts(r@) + Seq::<Seq<char>>::empty() =~= texts(r@));
            return r;
        }
        let mut end: usize = start;
        while end < cs.len() && !is_space(cs[end])
            invariant
                cs@ == s@,
                start <= end <= cs@.len(),
                find_space(s@, start as int) == find_space(s@, end as int),
            decreases cs@.len() - end,
        {
            end += 1;
        }
        proof {
            lemma_find_space_shift(s@, start as int, 0);
            lemma_find_space(t, 0);
        }
        r.push(string_from(cs.as_slice(), start, end));
        proof {
            assert(t.take(end - start) =~= s@.subrange(start as int, end as int));
            assert(t.skip(end - start) =~= s@.skip(end as int));
            assert(texts(r@) + words_of(s@.skip(end as int)) =~= before + words_of(rest));
        }
        from = end;
    }
}

// ---------------------------------------------------------------------------
// Decimals
// ---------------------------------------------------------------------------

/// The character of a decimal digit.
pub open spec fn digit_char(d: nat) -> char {
    (48 + d as u8) as u8 as char
}

/// A number in decimal digits, without leading zeros.
pub open spec fn decimal(n: nat) -> Seq<char>
    decreases n,
{
    if n < 10 {
        seq![digit_char(n)]
    } else {
        decimal(n / 10).push(digit_char(n % 10))
    }
}

/// `n` in decimal digits.
pub fn decimal_text(n: u64) -> (r: String)
    ensures
        r@ == decimal(n as nat),
    decreases n,
{
    if n < 10 {
        let mut r = String::new();
        r.push((48 + n as u8) as char);
        assert(r@ =~= seq![digit_char(n as nat)]);
        r
    } else {
        let mut r = decimal_text(n / 10);
        r.push((48 + (n % 10) as u8) as char);
        r
    }
}

/// `n` in decimal digits.
pub fn decimal_text_wide(n: u128) -> (r: String)
    ensures
        r@ == decimal(n as nat),
    decreases n,
{
    if n < 10 {
        let mut r = String::new();
        r.push((48 + n as u8) as char);
        assert(r@ =~= seq![digit_char(n as nat)]);
        r
    } else {
        let mut r = decimal_text_wide(n / 10);
        r.push((48 + (n % 10) as u8) as char);
        r
    }
}

/// Whether a character is a decimal digit.
pub open spec fn digit(c: char) -> bool {
    '0' <= c <= '9'
}

/// The number that a row of decimal digits writes.
pub open spec fn digits_value(s: Seq<char>) -> nat
    decreases s.len(),
{
    if s.len() == 0 {
        0
    } else {
        digits_value(s.drop_last()) * 10 + (s.last() as nat - 48) as nat
    }
}

/// Whether `s` is a row of decimal digits.
pub open spec fn all_digits(s: Seq<char>) -> bool {
    s.len() > 0 && forall|i: int| 0 <= i < s.len() ==> digit(#[trigger] s[i])
}

/// A text without a plus sign at its start.
pub open spec fn unsigned_body(s: Seq<char>) -> Seq<char> {
    if s.len() > 0 && s[0] == '+' {
        s.skip(1)
    } else {
        s
    }
}

/// An unsigned number as text: decimal digits, a plus sign before them allowed, `max` at most.
pub open spec fn read_unsigned(s: Seq<char>, max: nat) -> Option<nat> {
    let body = unsigned_body(s);
    if all_digits(body) && digits_value(body) <= max {
        Some(digits_value(body))
    } else {
        None
    }
}

proof fn lemma_digits_value_monotone(s: Seq<char>, n: int)
    requires
        all_digits(s),
        0 <= n <= s.len(),
    ensures
        digits_value(s.take(n)) <= digits_value(s),
    decreases s.len() - n,
{
    if n < s.len() {
        lemma_digits_value_monotone(s, n + 1);
        assert(s.take(n + 1).drop_last() =~= s.take(n));
        assert(digit(s[n]));
    } else {
        assert(s.take(n) =~= s);
    }
}

/// The unsigned number that `s` writes, if it is `max` at most.
pub fn parse_unsigned(s: &str, max: u64) -> (r: Option<u64>)
    ensures
        r is Some == read_unsigned(s@, max as nat) is Some,
        r is Some ==> r->0 as nat == read_unsigned(s@, max as nat)->0,
{
    let cs = chars_of(s);
    let mut from: usize = 0;
    if cs.len() > 0 && cs[0] == '+' {
        from = 1;
    }
    let ghost body = s@.skip(from as int);
    proof {
        if from == 0 {
            assert(s@.skip(0) =~= s@);
        }
    }
    if from == cs.len() {
        return None;
    }
    let mut i: usize = from;
    let mut value: u64 = 0;
    while i < cs.len()
        invariant
            cs@ == s@,
            from <= i <= cs@.len(),
            from < cs@.len(),
            body == s@.skip(from as int),
            body == unsigned_body(s@),
            forall|k: int| from <= k < i ==> digit(#[trigger] cs@[k]),
        decreases cs@.len() - i,
    {
        if cs[i] < '0' || cs[i] > '9' {
            assert(!digit(body[i - from]));
            return None;
        }
        i += 1;
    }
    assert(all_digits(body)) by {
        assert forall|k: int| 0 <= k < body.len() implies digit(#[trigger] body[k]) by {
            assert(body[k] == cs@[from + k]);
        }
    }
    i = from;
    assert(body.take(0) =~= Seq::<char>::empty());
    while i < cs.len()
        invariant
            cs@ == s@,
            from <= i <= cs@.len(),
            body == s@.skip(from as int),
            body == unsigned_body(s@),
            all_digits(body),
            value as nat == digits_value(body.take(i - from)),
            value <= max,
        decreases cs@.len() - i,
    {
        assert(digit(body[i - from]));
        assert(body.take(i - from + 1).drop_last() =~= body.take(i - from));
        let d: u64 = (cs[i] as u8 - 48) as u64;
        proof {
            lemma_digits_value_monotone(body, i - from + 1);
        }
        match value.checked_mul(10) {
            Some(tens) => match tens.checked_add(d) {
                Some(next) => {
                    if next > max {
                        return None;
                    }
                    value = next;
                },
                None => {
                    return None;
                },
            },
            None => {
                return None;
            },
        }
        i += 1;
    }
    assert(body.take(i - from) =~= body);
    Some(value)
}

// ---------------------------------------------------------------------------
// Renderings of the standard library
// ---------------------------------------------------------------------------

/// A text as `{:?}` shows it.
pub uninterp spec fn debug_text(s: Seq<char>) -> Seq<char>;

/// `format!("{:?}")` of a text: the text in quotes, with what does not print escaped. Which
/// characters are escaped is not stated.
#[verifier::external_body]
pub(crate) fn quoted(s: &str) -> (r: String)
    ensures
        r@ == debug_text(s@),
{
    format!("{:?}", s)
}

/// A text in Unicode capitals.
pub uninterp spec fn uppercase_text(s: Seq<char>) -> Seq<char>;

/// `str::to_uppercase`: an ASCII text gets its ASCII capitals. What becomes of other characters is
/// not stated.
#[verifier::external_body]
pub(crate) fn to_upper(s: &str) -> (r: String)
    ensures
        r@ == if is_ascii_chars(s@) {
            uppered(s@)
        } else {
            uppercase_text(s@)
        },
{
    s.to_uppercase()
}

/// A text in Unicode small letters.
pub uninterp spec fn lowercase_text(s: Seq<char>) -> Seq<char>;

/// `str::to_lowercase`: an ASCII text gets its ASCII small letters. What becomes of other characters
/// is not stated.
#[verifier::external_body]
pub(crate) fn to_lower(s: &str) -> (r: String)
    ensures
        r@ == if is_ascii_chars(s@) {
            lowered(s@)
        } else {
            lowercase_text(s@)
        },
{
    s.to_lowercase()
}

/// A text in capitals.
pub open spec fn in_capitals(s: Seq<char>) -> Seq<char> {
    if is_ascii_chars(s) {
        uppered(s)
    } else {
        uppercase_text(s)
    }
}

/// A text in small letters.
pub open spec fn in_small(s: Seq<char>) -> Seq<char> {
    if is_ascii_chars(s) {
        lowered(s)
    } else {
        lowercase_text(s)
    }
}

/// Errors by their texts.
pub open spec fn told<T>(r: Result<T, String>) -> Result<T, Seq<char>> {
    match r {
        Ok(x) => Ok(x),
        Err(e) => Err(e@),
    }
}

} // verus!
