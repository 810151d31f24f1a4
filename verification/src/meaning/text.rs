//! What the operations on text do to it.
use vstd::prelude::*;
use vstd::utf8::*;
use crate::text::{
    alike, all_digits, blank, chomped, cut, cut_at, decimal, digit, digit_char, digits_value,
    find_char, find_space, find_text, has, in_capitals, in_small, joined, joined_to,
    lemma_find_char, lines_of, lowered, occurs_at, pieces, read_unsigned, space, text_before,
    trimmed, trimmed_end, trimmed_start, uppered, words_of,
};

verus! {

/// Whether a text is nothing but white space.
pub open spec fn all_space(s: Seq<char>) -> bool {
    forall|i: int| 0 <= i < s.len() ==> space(#[trigger] s[i])
}

/// Whether no character of a text is white space.
pub open spec fn no_space(s: Seq<char>) -> bool {
    forall|i: int| 0 <= i < s.len() ==> !space(#[trigger] s[i])
}

/// Whether one character is the other, but for the case of a letter `A` to `Z`.
pub open spec fn same_letter(c: char, d: char) -> bool {
    ||| c == d
    ||| 'A' <= c <= 'Z' && d as int == c as int + 32
    ||| 'A' <= d <= 'Z' && c as int == d as int + 32
}

proof fn lemma_start(s: Seq<char>)
    ensures
        ({
            let rest = trimmed_start(s);
            &&& rest.len() <= s.len()
            &&& rest == s.skip(s.len() - rest.len())
            &&& all_space(s.take(s.len() - rest.len()))
            &&& rest.len() > 0 ==> !space(rest[0])
        }),
    decreases s.len(),
{
    if s.len() > 0 && space(s[0]) {
        lemma_start(s.skip(1));
        let rest = trimmed_start(s);
        let k = s.len() - rest.len();
        assert(s.skip(1).skip(k - 1) =~= s.skip(k));
        assert forall|i: int| 0 <= i < k implies space(#[trigger] s.take(k)[i]) by {
            if i > 0 {
                assert(s.skip(1).take(k - 1)[i - 1] == s[i]);
            }
        }
    } else {
        assert(s.skip(0) =~= s);
    }
}

proof fn lemma_end(s: Seq<char>)
    ensures
        ({
            let rest = trimmed_end(s);
            &&& rest.len() <= s.len()
            &&& rest == s.take(rest.len() as int)
            &&& all_space(s.skip(rest.len() as int))
            &&& rest.len() > 0 ==> !space(rest.last())
        }),
    decreases s.len(),
{
    if s.len() > 0 && space(s.last()) {
        lemma_end(s.drop_last());
        let k = trimmed_end(s).len() as int;
        assert(s.drop_last().take(k) =~= s.take(k));
        assert forall|i: int| 0 <= i < s.len() - k implies space(#[trigger] s.skip(k)[i]) by {
            if i < s.len() - k - 1 {
                assert(s.drop_last().skip(k)[i] == s[k + i]);
            }
        }
    } else {
        assert(s.take(s.len() as int) =~= s);
    }
}

/// White space is what Unicode calls so: the controls from the tab to the carriage return, the space,
/// the next-line control, the no-break space and the spaces and separators of the other scripts.
pub proof fn lemma_white_space_is_that_of_unicode(c: char)
    ensures
        space(c) <==> (0x09 <= c as int <= 0x0d || c as int == 0x20 || c as int == 0x85 || c as int
            == 0xa0 || c as int == 0x1680 || 0x2000 <= c as int <= 0x200a || c as int == 0x2028
            || c as int == 0x2029 || c as int == 0x202f || c as int == 0x205f || c as int
            == 0x3000),
{
}

/// Trimming takes white space off both ends, all of it, and nothing else.
pub proof fn lemma_trimming_takes_space_off_the_ends(
    before: Seq<char>,
    s: Seq<char>,
    after: Seq<char>,
)
    requires
        all_space(before),
        all_space(after),
        s.len() > 0 ==> !space(s[0]) && !space(s.last()),
    ensures
        trimmed(before + s + after) == s,
    decreases before.len() + after.len(),
{
    let whole = before + s + after;
    lemma_start(whole);
    let mid = trimmed_start(whole);
    let k = whole.len() - mid.len();
    lemma_end(mid);
    let core = trimmed(whole);
    if s.len() > 0 {
        if k < before.len() {
            assert(mid[0] == whole[k]);
            assert(whole[k] == before[k]);
            assert(false);
        }
        if k > before.len() {
            assert(whole.take(k)[before.len() as int] == s[0]);
            assert(false);
        }
        assert(mid =~= s + after);
        if core.len() < s.len() {
            let j = s.len() - 1 - core.len();
            assert(mid.skip(core.len() as int)[j] == s.last());
            assert(false);
        }
        if core.len() > s.len() {
            assert(core.last() == after[core.len() - 1 - s.len()]);
            assert(false);
        }
        assert(core =~= s);
    } else {
        if core.len() > 0 {
            assert(core[0] == mid[0]);
            assert(mid[0] == whole[k]);
            if k < before.len() {
                assert(whole[k] == before[k]);
            } else {
                assert(whole[k] == after[k - before.len()]);
            }
            assert(false);
        }
        assert(core =~= s);
    }
}

/// A text is blank when it is nothing but white space.
pub proof fn lemma_blank_is_all_space(s: Seq<char>)
    ensures
        blank(s) <==> all_space(s),
{
    if all_space(s) {
        let none = Seq::<char>::empty();
        lemma_trimming_takes_space_off_the_ends(s, none, none);
        assert(s + none + none =~= s);
    }
    if blank(s) {
        lemma_start(s);
        let mid = trimmed_start(s);
        lemma_end(mid);
        let k = s.len() - mid.len();
        assert forall|i: int| 0 <= i < s.len() implies space(#[trigger] s[i]) by {
            if i < k {
                assert(s.take(k)[i] == s[i]);
            } else {
                assert(mid.skip(0)[i - k] == s[i]);
            }
        }
    }
}

/// Changing the case of a text changes its letters one by one and nothing else.
pub proof fn lemma_case_is_of_letters(s: Seq<char>, i: int)
    requires
        0 <= i < s.len(),
    ensures
        lowered(s).len() == s.len(),
        uppered(s).len() == s.len(),
        'A' <= s[i] <= 'Z' ==> lowered(s)[i] as int == s[i] as int + 32,
        'a' <= s[i] <= 'z' ==> uppered(s)[i] as int == s[i] as int - 32,
        !('A' <= s[i] <= 'Z') ==> lowered(s)[i] == s[i],
        !('a' <= s[i] <= 'z') ==> uppered(s)[i] == s[i],
{
}

/// Two texts are alike when they differ in the case of letters only.
pub proof fn lemma_alike_but_for_case(a: Seq<char>, b: Seq<char>)
    ensures
        alike(a, b) <==> a.len() == b.len() && forall|i: int|
            0 <= i < a.len() ==> same_letter(#[trigger] a[i], b[i]),
{
    if alike(a, b) {
        assert(lowered(a).len() == a.len() && lowered(b).len() == b.len());
        assert forall|i: int| 0 <= i < a.len() implies same_letter(#[trigger] a[i], b[i]) by {
            assert(lowered(a)[i] == lowered(b)[i]);
        }
    }
    if a.len() == b.len() && (forall|i: int|
        0 <= i < a.len() ==> same_letter(#[trigger] a[i], b[i])) {
        assert forall|i: int| 0 <= i < a.len() implies lowered(a)[i] == lowered(b)[i] by {
            assert(same_letter(a[i], b[i]));
        }
        assert(lowered(a) =~= lowered(b));
    }
}

/// A text of ASCII characters gets capitals, or small letters, letter by letter.
pub proof fn lemma_ascii_case(s: Seq<char>)
    requires
        is_ascii_chars(s),
    ensures
        in_capitals(s) == uppered(s),
        in_small(s) == lowered(s),
{
}

/// A text is cut at the first occurrence of the character, which belongs to neither part.
pub proof fn lemma_cut_at_the_first_char(head: Seq<char>, c: char, tail: Seq<char>)
    requires
        !(head.contains(c)),
    ensures
        cut(head.push(c) + tail, c) == Some((head, tail)),
{
    let s = head.push(c) + tail;
    lemma_find_char(s, c, 0);
    let k = find_char(s, c, 0);
    assert(s[head.len() as int] == c);
    if k < head.len() {
        assert(head[k] == s[k]);
        assert(head.contains(c));
    }
    assert(k == head.len());
    assert(s.take(k) =~= head);
    assert(s.skip(k + 1) =~= tail);
}

/// A text without the character is not cut.
pub proof fn lemma_no_cut_without_the_char(s: Seq<char>, c: char)
    ensures
        cut(s, c) is None <==> !(s.contains(c)),
{
    lemma_find_char(s, c, 0);
    let k = find_char(s, c, 0);
    if k < s.len() {
        assert(s[k] == c);
    }
}

proof fn lemma_find_text(s: Seq<char>, part: Seq<char>, i: int)
    requires
        0 <= i <= s.len() + 1,
    ensures
        i <= find_text(s, part, i) <= s.len() + 1,
        find_text(s, part, i) <= s.len() ==> occurs_at(s, part, find_text(s, part, i)),
        forall|j: int| i <= j < find_text(s, part, i) ==> !(#[trigger] occurs_at(s, part, j)),
    decreases s.len() + 1 - i,
{
    if i <= s.len() && !occurs_at(s, part, i) {
        lemma_find_text(s, part, i + 1);
    }
}

/// A text is cut at the first occurrence of the separator: the parts and the separator make up the
/// text, and the separator stands nowhere before.
pub proof fn lemma_cut_at_the_first_text(s: Seq<char>, sep: Seq<char>)
    ensures
        cut_at(s, sep) is Some <==> has(s, sep),
        cut_at(s, sep) matches Some((head, tail)) ==> s == head + sep + tail && forall|j: int|
            0 <= j < head.len() ==> !(#[trigger] occurs_at(s, sep, j)),
{
    lemma_find_text(s, sep, 0);
    let k = find_text(s, sep, 0);
    if k <= s.len() {
        assert(s =~= s.take(k) + s.subrange(k, k + sep.len()) + s.skip(k + sep.len()));
    } else if has(s, sep) {
        let i = choose|i: int| occurs_at(s, sep, i);
        assert(!occurs_at(s, sep, i));
    }
}

proof fn lemma_join_first(first: Seq<char>, rest: Seq<Seq<char>>, sep: Seq<char>, n: int)
    requires
        1 <= n <= rest.len(),
    ensures
        joined_to(seq![first] + rest, sep, n + 1) == first + sep + joined_to(rest, sep, n),
    decreases n,
{
    let all = seq![first] + rest;
    assert(all[n] == rest[n - 1]);
    if n > 1 {
        lemma_join_first(first, rest, sep, n - 1);
        assert(joined_to(all, sep, n + 1) =~= first + sep + joined_to(rest, sep, n));
    } else {
        assert(joined_to(all, sep, 1) == first);
        assert(joined_to(rest, sep, 1) == rest[0]);
    }
}

/// Joined texts stand one after the other, with the separator between each two and none at the ends.
pub proof fn lemma_joined_with_separators_between(
    first: Seq<char>,
    rest: Seq<Seq<char>>,
    sep: Seq<char>,
)
    ensures
        joined(Seq::<Seq<char>>::empty(), sep).len() == 0,
        joined(seq![first], sep) == first,
        rest.len() > 0 ==> joined(seq![first] + rest, sep) == first + sep + joined(rest, sep),
{
    if rest.len() > 0 {
        lemma_join_first(first, rest, sep, rest.len() as int);
    }
}

/// The pieces of a text hold no separator and, joined by it, make up the text.
pub proof fn lemma_pieces_make_up_the_text(s: Seq<char>, c: char)
    ensures
        pieces(s, c).len() > 0,
        joined(pieces(s, c), seq![c]) == s,
        forall|i: int| 0 <= i < pieces(s, c).len() ==> !(#[trigger] pieces(s, c)[i]).contains(c),
    decreases s.len(),
{
    lemma_find_char(s, c, 0);
    let k = find_char(s, c, 0);
    let all = pieces(s, c);
    if k >= s.len() {
        assert(all =~= seq![s]);
        assert(!s.contains(c));
    } else {
        let rest = pieces(s.skip(k + 1), c);
        lemma_pieces_make_up_the_text(s.skip(k + 1), c);
        assert(all == seq![s.take(k)] + rest);
        lemma_joined_with_separators_between(s.take(k), rest, seq![c]);
        assert(s[k] == c);
        assert(s =~= s.take(k) + seq![c] + s.skip(k + 1));
        assert forall|i: int| 0 <= i < all.len() implies !(#[trigger] all[i]).contains(c) by {
            if i > 0 {
                assert(all[i] == rest[i - 1]);
            }
        }
    }
}

/// Pieces that hold no separator are got back from the text that they make up.
pub proof fn lemma_joined_pieces_come_back(v: Seq<Seq<char>>, c: char)
    requires
        v.len() > 0,
        forall|i: int| 0 <= i < v.len() ==> !(#[trigger] v[i]).contains(c),
    ensures
        pieces(joined(v, seq![c]), c) == v,
    decreases v.len(),
{
    let s = joined(v, seq![c]);
    lemma_find_char(s, c, 0);
    let k = find_char(s, c, 0);
    if v.len() == 1 {
        assert(s == v[0]);
        if k < s.len() {
            assert(s[k] == c);
            assert(v[0].contains(c));
        }
        assert(pieces(s, c) =~= v);
    } else {
        let rest = v.skip(1);
        assert(v =~= seq![v[0]] + rest);
        lemma_joined_with_separators_between(v[0], rest, seq![c]);
        assert forall|i: int| 0 <= i < rest.len() implies !(#[trigger] rest[i]).contains(c) by {
            assert(rest[i] == v[i + 1]);
        }
        lemma_joined_pieces_come_back(rest, c);
        let tail = joined(rest, seq![c]);
        assert(s == v[0] + seq![c] + tail);
        assert(s =~= v[0].push(c) + tail);
        assert(!(v[0].contains(c)));
        lemma_cut_at_the_first_char(v[0], c, tail);
        assert(s.take(k) == v[0] && s.skip(k + 1) == tail);
        assert(pieces(s, c) =~= v);
    }
}

/// A line ends at its line feed, with or without a carriage return before it.
pub proof fn lemma_lines_end_at_line_feeds(line: Seq<char>, rest: Seq<char>)
    requires
        !(line.contains('\n')),
    ensures
        lines_of(Seq::<char>::empty()).len() == 0,
        line.len() > 0 ==> lines_of(line) == seq![line],
        lines_of(line.push('\r').push('\n') + rest) == seq![line] + lines_of(rest),
        line.len() == 0 || line.last() != '\r' ==> lines_of(line.push('\n') + rest) == seq![line]
            + lines_of(rest),
{
    lemma_find_char(line, '\n', 0);
    let k = find_char(line, '\n', 0);
    if k < line.len() {
        assert(line[k] == '\n');
    }
    let full = line.push('\r');
    assert(!(full.contains('\n'))) by {
        if full.contains('\n') {
            let j = choose|j: int| 0 <= j < full.len() && full[j] == '\n';
            assert(line[j] == '\n');
        }
    }
    lemma_cut_at_the_first_char(full, '\n', rest);
    assert(chomped(full) =~= line);
    lemma_cut_at_the_first_char(line, '\n', rest);
}

proof fn lemma_space_at(s: Seq<char>, i: int, k: int)
    requires
        0 <= i <= k <= s.len(),
        forall|j: int| i <= j < k ==> !space(#[trigger] s[j]),
        k < s.len() ==> space(s[k]),
    ensures
        find_space(s, i) == k,
    decreases k - i,
{
    if i < k {
        assert(!space(s[i]));
        lemma_space_at(s, i + 1, k);
    }
}

/// The words of a text are its runs of characters that are no white space.
pub proof fn lemma_words_are_between_spaces(word: Seq<char>, c: char, rest: Seq<char>)
    requires
        word.len() > 0,
        no_space(word),
        space(c),
    ensures
        words_of(Seq::<char>::empty()).len() == 0,
        words_of(word) == seq![word],
        words_of(seq![c] + rest) == words_of(rest),
        words_of(word.push(c) + rest) == seq![word] + words_of(rest),
{
    let none = Seq::<char>::empty();
    assert(trimmed_start(none) =~= none);
    assert(words_of(none).len() == 0);
    assert(!space(word[0]));
    assert(trimmed_start(word) == word);
    lemma_space_at(word, 0, word.len() as int);
    assert(word.take(word.len() as int) =~= word);
    assert(word.skip(word.len() as int) =~= none);
    assert(words_of(word) =~= seq![word]);
    let spaced = seq![c] + rest;
    assert(spaced.skip(1) =~= rest);
    assert(trimmed_start(spaced) == trimmed_start(rest));
    assert(words_of(spaced) =~= words_of(rest));
    let s = word.push(c) + rest;
    assert(!space(s[0]));
    assert(trimmed_start(s) == s);
    let k = word.len() as int;
    assert forall|j: int| 0 <= j < k implies !space(#[trigger] s[j]) by {
        assert(s[j] == word[j]);
    }
    assert(s[k] == c);
    lemma_space_at(s, 0, k);
    assert(s.take(k) =~= word);
    assert(s.skip(k) =~= spaced);
}

/// A number is written in digits that read as it, without a zero in front.
pub proof fn lemma_numbers_are_written_in_digits(n: nat)
    ensures
        all_digits(decimal(n)),
        digits_value(decimal(n)) == n,
        decimal(n).len() > 1 ==> decimal(n)[0] != '0',
        n > 0 ==> decimal(n)[0] != '0',
    decreases n,
{
    let text = decimal(n);
    if n < 10 {
        assert(text.drop_last().len() == 0);
        assert(digits_value(text.drop_last()) == 0);
        assert(text.last() as nat == 48 + n);
    } else {
        let head = decimal(n / 10);
        lemma_numbers_are_written_in_digits(n / 10);
        assert(text.drop_last() =~= head);
        assert(text.last() as nat == 48 + n % 10);
        assert(text[0] == head[0]);
        assert forall|i: int| 0 <= i < text.len() implies digit(#[trigger] text[i]) by {
            if i < head.len() {
                assert(text[i] == head[i]);
            }
        }
    }
}

/// A written number reads back as itself, with or without a plus sign, as far as it fits.
pub proof fn lemma_written_numbers_read_back(n: nat, max: nat)
    ensures
        read_unsigned(decimal(n), max) == if n <= max {
            Some(n)
        } else {
            None
        },
        read_unsigned(seq!['+'] + decimal(n), max) == if n <= max {
            Some(n)
        } else {
            None
        },
{
    lemma_numbers_are_written_in_digits(n);
    assert(digit(decimal(n)[0]));
    assert((seq!['+'] + decimal(n)).skip(1) =~= decimal(n));
}

/// Zeros in front of a number do not change what it reads as.
pub proof fn lemma_leading_zeros_do_not_count(s: Seq<char>, max: nat)
    requires
        all_digits(s),
    ensures
        read_unsigned(seq!['0'] + s, max) == read_unsigned(s, max),
    decreases s.len(),
{
    let t = seq!['0'] + s;
    lemma_zero_in_front(s);
    assert(digit(s[0]));
    assert forall|i: int| 0 <= i < t.len() implies digit(#[trigger] t[i]) by {
        if i > 0 {
            assert(t[i] == s[i - 1]);
        }
    }
}

proof fn lemma_zero_in_front(s: Seq<char>)
    ensures
        digits_value(seq!['0'] + s) == digits_value(s),
    decreases s.len(),
{
    let t = seq!['0'] + s;
    if s.len() == 0 {
        assert(t.drop_last().len() == 0);
        assert(digits_value(t.drop_last()) == 0);
    } else {
        lemma_zero_in_front(s.drop_last());
        assert(t.drop_last() =~= seq!['0'] + s.drop_last());
    }
}

/// What reads as a number is digits alone, after a plus sign at most, and the number fits.
pub proof fn lemma_only_digits_read(s: Seq<char>, max: nat, i: int)
    requires
        read_unsigned(s, max) is Some,
        0 <= i < s.len(),
    ensures
        digit(s[i]) || (i == 0 && s[i] == '+' && s.len() > 1),
        read_unsigned(s, max)->0 <= max,
{
    if s[0] == '+' {
        let body = s.skip(1);
        if i > 0 {
            assert(body[i - 1] == s[i]);
        }
    }
}

/// Appending a digit makes a number ten times as large, and adds the digit.
pub proof fn lemma_each_digit_counts_ten_times(s: Seq<char>, d: nat)
    requires
        d < 10,
    ensures
        digits_value(s.push(digit_char(d))) == digits_value(s) * 10 + d,
        digits_value(Seq::<char>::empty()) == 0,
{
    let t = s.push(digit_char(d));
    assert(t.drop_last() =~= s);
    assert(t.last() as nat == 48 + d);
}

/// Texts are ordered like words: by the first character in which they differ, a text before any
/// that continues it.
pub proof fn lemma_text_order_is_that_of_words(
    head: Seq<char>,
    a: Seq<char>,
    b: Seq<char>,
)
    requires
        a.len() == 0 || b.len() == 0 || a[0] != b[0],
    ensures
        text_before(head + a, head + b, 0) <==> b.len() > 0 && (a.len() == 0 || a[0] < b[0]),
{
    lemma_order_from(head, a, b, 0);
}

proof fn lemma_order_from(head: Seq<char>, a: Seq<char>, b: Seq<char>, i: int)
    requires
        a.len() == 0 || b.len() == 0 || a[0] != b[0],
        0 <= i <= head.len(),
    ensures
        text_before(head + a, head + b, i) <==> b.len() > 0 && (a.len() == 0 || a[0] < b[0]),
    decreases head.len() - i,
{
    let (s, t) = (head + a, head + b);
    if i < head.len() {
        assert(s[i] == head[i] && t[i] == head[i]);
        lemma_order_from(head, a, b, i + 1);
    } else {
        if a.len() > 0 {
            assert(s[i] == a[0]);
        }
        if b.len() > 0 {
            assert(t[i] == b[0]);
        }
    }
}

} // verus!
