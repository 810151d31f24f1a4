//! What a threshold means that a user writes down.
use vstd::prelude::*;
use vstd::string::*;
use crate::meaning::rate::holds_a_rate;
use crate::number::Double;
use crate::plan::{mbps_in, percent_in, total_in};
use crate::config::TotalTarget;
use crate::readings::{reading, reading_from, Reading, Readings};
use crate::text::{blank, ends, trimmed};
use crate::validate::{rx_target, RxTarget};

verus! {

/// A text ends with a percent sign.
pub open spec fn is_share(text: Seq<char>) -> bool {
    text.len() > 0 && text.last() == '%'
}

/// A text says a rate of `v` megabits: it is a number that a rate can be held to.
pub open spec fn says_mbps(rd: Readings, raw: Seq<char>, v: Double) -> bool {
    &&& !blank(raw)
    &&& !is_share(trimmed(raw))
    &&& reading(rd.numbers@, trimmed(raw)) == Ok::<Double, Seq<char>>(v)
    &&& holds_a_rate(v)
}

/// A text says a share of `v` percent: such a number before a percent sign, two hundred at most.
pub open spec fn says_percent(rd: Readings, raw: Seq<char>, v: Double) -> bool {
    &&& is_share(trimmed(raw))
    &&& reading(rd.numbers@, trimmed(trimmed(raw).drop_last())) == Ok::<Double, Seq<char>>(v)
    &&& 0 < v.bits <= 0x4069_0000_0000_0000
}

/// A blank text is no threshold; any other is one in megabits, one in percent, or refused.
pub proof fn lemma_threshold_is_read(rd: Readings, raw: Seq<char>, v: Double)
    ensures
        rx_target(rd, raw) == Ok::<Option<RxTarget>, Seq<char>>(None) <==> blank(raw),
        rx_target(rd, raw) == Ok::<Option<RxTarget>, Seq<char>>(Some(RxTarget::Mbps(v)))
            <==> says_mbps(rd, raw, v),
        rx_target(rd, raw) == Ok::<Option<RxTarget>, Seq<char>>(Some(RxTarget::Percent(v)))
            <==> says_percent(rd, raw, v),
        mbps_in(rd, raw) == Some(v) <==> says_mbps(rd, raw, v),
        percent_in(rd, raw) == Some(v) <==> says_percent(rd, raw, v),
        total_in(rd, raw) == Some(TotalTarget::Total(v)) <==> says_mbps(rd, raw, v),
        blank(raw) ==> total_in(rd, raw) is None,
        total_in(rd, raw) matches Some(t) ==> t is Total,
{
    reveal_strlit("%");
    let text = trimmed(raw);
    assert("%"@ =~= seq!['%']);
    if text.len() > 0 {
        assert(text.subrange(text.len() - 1, text.len() as int) =~= seq![text.last()]);
        assert(seq![text.last()][0] == text.last());
        assert(seq!['%'][0] == '%');
        assert(ends(text, "%"@) <==> is_share(text));
        assert(text.take(text.len() - 1) =~= text.drop_last());
    }
}

/// Where a text says no rate at all, none is taken from it.
pub proof fn lemma_no_rate_without_words(rd: Readings, raw: Seq<char>)
    requires
        forall|v: Double| !(#[trigger] says_mbps(rd, raw, v)),
    ensures
        mbps_in(rd, raw) is None,
        total_in(rd, raw) is None,
{
    if let Some(v) = mbps_in(rd, raw) {
        lemma_threshold_is_read(rd, raw, v);
    }
}

/// A text reads as the first entry of it says.
pub proof fn lemma_first_reading_counts<T>(v: Seq<Reading<T>>, text: Seq<char>, at: int)
    requires
        0 <= at < v.len(),
        v[at].text@ == text,
        forall|i: int| 0 <= i < at ==> (#[trigger] v[i]).text@ != text,
    ensures
        v[at].outcome matches Ok(x) ==> reading(v, text) == Ok::<T, Seq<char>>(x),
        v[at].outcome matches Err(e) ==> reading(v, text) == Err::<T, Seq<char>>(e@),
{
    lemma_reading_from(v, text, 0, at);
}

proof fn lemma_reading_from<T>(v: Seq<Reading<T>>, text: Seq<char>, i: int, at: int)
    requires
        0 <= i <= at < v.len(),
        v[at].text@ == text,
        forall|j: int| i <= j < at ==> (#[trigger] v[j]).text@ != text,
    ensures
        v[at].outcome matches Ok(x) ==> reading_from(v, text, i) == Ok::<T, Seq<char>>(x),
        v[at].outcome matches Err(e) ==> reading_from(v, text, i) == Err::<T, Seq<char>>(e@),
    decreases at - i,
{
    if i < at {
        lemma_reading_from(v, text, i + 1, at);
    }
}

} // verus!
