//! What becomes of a list that a user writes down.
use vstd::prelude::*;
use crate::config::UdpProfileView;
use crate::sweep::{
    at_least_one, choices, cleaned_or, deduped, deduped_to, lemma_sweep_is_complete, nonzero,
    nonzero_to, steps_or, udp_cross, udp_sweep,
};
use crate::text::{blank, trimmed};
use crate::validate::{cleaned, cleaned_to, pinned_endpoints, pinned_to, streams_fit};
use crate::model::NicPolicySelection;

verus! {

/// A list holds a text that is not blank, spaces around it aside.
pub open spec fn lists_text(raw: Seq<Seq<char>>, x: Seq<char>) -> bool {
    exists|i: int| 0 <= i < raw.len() && !blank(#[trigger] raw[i]) && trimmed(raw[i]) == x
}

/// Cleaning keeps the texts that are not blank, each without the spaces around it, in their order.
pub proof fn lemma_cleaning_keeps_what_is_written(raw: Seq<Seq<char>>, x: Seq<char>)
    ensures
        cleaned(raw).contains(x) <==> lists_text(raw, x),
        cleaned(raw.push(x)) == if blank(x) {
            cleaned(raw)
        } else {
            cleaned(raw).push(trimmed(x))
        },
        cleaned(Seq::empty()).len() == 0,
        cleaned(raw).len() <= raw.len(),
{
    lemma_cleaned_members(raw, raw.len() as int, x);
    lemma_cleaned_prefix(raw, x, raw.len() as int);
}

proof fn lemma_cleaned_members(raw: Seq<Seq<char>>, n: int, x: Seq<char>)
    requires
        0 <= n <= raw.len(),
    ensures
        cleaned_to(raw, n).contains(x) <==> exists|i: int|
            0 <= i < n && !blank(#[trigger] raw[i]) && trimmed(raw[i]) == x,
        cleaned_to(raw, n).len() <= n,
    decreases n,
{
    if n > 0 {
        lemma_cleaned_members(raw, n - 1, x);
        let (before, after) = (cleaned_to(raw, n - 1), cleaned_to(raw, n));
        if before.contains(x) {
            let k = choose|k: int| 0 <= k < before.len() && before[k] == x;
            assert(after[k] == x);
        }
        if !blank(raw[n - 1]) {
            assert(after[before.len() as int] == trimmed(raw[n - 1]));
            if after.contains(x) && !before.contains(x) {
                let k = choose|k: int| 0 <= k < after.len() && after[k] == x;
                if k < before.len() {
                    assert(before[k] == x);
                }
            }
        }
    }
}

proof fn lemma_cleaned_prefix(raw: Seq<Seq<char>>, x: Seq<char>, n: int)
    requires
        n <= raw.len(),
    ensures
        cleaned_to(raw.push(x), n) == cleaned_to(raw, n),
    decreases n,
{
    if n > 0 {
        lemma_cleaned_prefix(raw, x, n - 1);
        assert(raw.push(x)[n - 1] == raw[n - 1]);
    }
}

/// A list that holds nothing gives way to the other.
pub proof fn lemma_empty_list_gives_way(picked: Seq<Seq<char>>, fallback: Seq<Seq<char>>)
    ensures
        (exists|x: Seq<char>| #[trigger] lists_text(picked, x)) ==> cleaned_or(picked, fallback)
            == cleaned(picked),
        (forall|x: Seq<char>| !(#[trigger] lists_text(picked, x))) ==> cleaned_or(picked, fallback)
            == fallback,
{
    if exists|x: Seq<char>| #[trigger] lists_text(picked, x) {
        let x = choose|x: Seq<char>| #[trigger] lists_text(picked, x);
        lemma_cleaning_keeps_what_is_written(picked, x);
    } else if cleaned(picked).len() > 0 {
        let x = cleaned(picked)[0];
        lemma_cleaning_keeps_what_is_written(picked, x);
        assert(cleaned(picked).contains(x));
    }
}

/// What repeats is dropped, the first of each stays in its place.
pub proof fn lemma_repeats_are_dropped<T>(s: Seq<T>, x: T)
    ensures
        deduped(s.push(x)) == if s.contains(x) {
            deduped(s)
        } else {
            deduped(s).push(x)
        },
        deduped(Seq::<T>::empty()).len() == 0,
{
    lemma_deduped_prefix(s, x, s.len() as int);
    crate::sweep::lemma_deduped(s);
    assert(deduped(s).contains(x) <==> s.contains(x));
}

proof fn lemma_deduped_prefix<T>(s: Seq<T>, x: T, n: int)
    requires
        n <= s.len(),
    ensures
        deduped_to(s.push(x), n) == deduped_to(s, n),
    decreases n,
{
    if n > 0 {
        lemma_deduped_prefix(s, x, n - 1);
        assert(s.push(x)[n - 1] == s[n - 1]);
    }
}

/// Zeros are dropped and all else stays, in its order.
pub proof fn lemma_zeros_are_dropped(s: Seq<u32>, x: u32)
    ensures
        nonzero(s.push(x)) == if x > 0 {
            nonzero(s).push(x)
        } else {
            nonzero(s)
        },
        nonzero(Seq::empty()).len() == 0,
        nonzero(s).contains(x) <==> x > 0 && s.contains(x),
{
    lemma_nonzero_prefix(s, x, s.len() as int);
    lemma_nonzero_members(s, s.len() as int, x);
}

proof fn lemma_nonzero_prefix(s: Seq<u32>, x: u32, n: int)
    requires
        n <= s.len(),
    ensures
        nonzero_to(s.push(x), n) == nonzero_to(s, n),
    decreases n,
{
    if n > 0 {
        lemma_nonzero_prefix(s, x, n - 1);
        assert(s.push(x)[n - 1] == s[n - 1]);
    }
}

proof fn lemma_nonzero_members(s: Seq<u32>, n: int, x: u32)
    requires
        0 <= n <= s.len(),
    ensures
        nonzero_to(s, n).contains(x) <==> x > 0 && exists|i: int| 0 <= i < n && #[trigger] s[i] == x,
    decreases n,
{
    if n > 0 {
        lemma_nonzero_members(s, n - 1, x);
        let (before, after) = (nonzero_to(s, n - 1), nonzero_to(s, n));
        if before.contains(x) {
            let k = choose|k: int| 0 <= k < before.len() && before[k] == x;
            assert(after[k] == x);
        }
        if s[n - 1] > 0 {
            assert(after[before.len() as int] == s[n - 1]);
            if after.contains(x) && !before.contains(x) {
                let k = choose|k: int| 0 <= k < after.len() && after[k] == x;
                if k < before.len() {
                    assert(before[k] == x);
                }
            }
        }
    }
}

/// The steps are the numbers that are given, zeros aside; without one there is a single step, of
/// what else was said but at least one.
pub open spec fn is_step(values: Seq<u32>, fallback: u32, x: u32) -> bool {
    if exists|i: int| 0 <= i < values.len() && #[trigger] values[i] > 0 {
        x > 0 && values.contains(x)
    } else {
        x == if fallback == 0 {
            1
        } else {
            fallback
        }
    }
}

/// The steps are exactly those that are given.
pub proof fn lemma_steps_are_as_given(values: Seq<u32>, fallback: u32, x: u32)
    ensures
        steps_or(values, fallback).contains(x) <==> is_step(values, fallback, x),
        steps_or(values, fallback).len() > 0,
{
    lemma_zeros_are_dropped(values, x);
    if exists|i: int| 0 <= i < values.len() && #[trigger] values[i] > 0 {
        let i = choose|i: int| 0 <= i < values.len() && #[trigger] values[i] > 0;
        lemma_zeros_are_dropped(values, values[i]);
        assert(nonzero(values).contains(values[i]));
    } else {
        if nonzero(values).len() > 0 {
            let y = nonzero(values)[0];
            lemma_zeros_are_dropped(values, y);
            assert(nonzero(values).contains(y));
            let i = choose|i: int| 0 <= i < values.len() && values[i] == y;
            assert(values[i] > 0);
        }
        let one = steps_or(values, fallback);
        assert(one[0] == at_least_one(fallback));
    }
}

/// An axis of a sweep has the value, or none where the axis has no values.
pub open spec fn on_axis(axis: Seq<Seq<char>>, value: Option<Seq<char>>) -> bool {
    match value {
        Some(x) => axis.contains(x),
        None => axis.len() == 0,
    }
}

pub(crate) proof fn lemma_axis(axis: Seq<Seq<char>>, value: Option<Seq<char>>)
    ensures
        choices(axis).contains(value) <==> on_axis(axis, value),
{
    let list = choices(axis);
    if axis.len() == 0 {
        assert(list[0] == None::<Seq<char>>);
    } else {
        if let Some(x) = value {
            if axis.contains(x) {
                let i = choose|i: int| 0 <= i < axis.len() && axis[i] == x;
                assert(list[i] == value);
            }
        }
        if list.contains(value) {
            let i = choose|i: int| 0 <= i < list.len() && list[i] == value;
            assert(list[i] == Some(axis[i]));
        }
    }
}

/// A sweep runs each bandwidth with each length and each window, and nothing else.
pub proof fn lemma_sweep_crosses_its_axes(
    bandwidths: Seq<Seq<char>>,
    lengths: Seq<Seq<char>>,
    windows: Seq<Seq<char>>,
    load: UdpProfileView,
)
    ensures
        udp_sweep(bandwidths, lengths, windows).contains(load) <==> bandwidths.contains(
            load.bandwidth,
        ) && on_axis(lengths, load.length) && on_axis(windows, load.window),
{
    lemma_sweep_is_complete(bandwidths, lengths, windows, load);
    lemma_axis(lengths, load.length);
    lemma_axis(windows, load.window);
}

/// A single bandwidth is run with each length and each window, and nothing else.
pub proof fn lemma_cross_keeps_the_bandwidth(
    bandwidth: Seq<char>,
    lengths: Seq<Seq<char>>,
    windows: Seq<Seq<char>>,
    load: UdpProfileView,
)
    ensures
        udp_cross(bandwidth, lengths, windows).contains(load) <==> load.bandwidth == bandwidth
            && on_axis(lengths, load.length) && on_axis(windows, load.window),
{
    let one = seq![bandwidth];
    lemma_sweep_crosses_its_axes(one, lengths, windows, load);
    reveal_with_fuel(crate::sweep::udp_sweep_to, 3);
    assert(udp_sweep(one, lengths, windows) =~= Seq::<UdpProfileView>::empty() + udp_cross(
        bandwidth,
        lengths,
        windows,
    ));
    assert(udp_sweep(one, lengths, windows) =~= udp_cross(bandwidth, lengths, windows));
    assert(one[0] == bandwidth);
    assert(one.contains(load.bandwidth) <==> load.bandwidth == bandwidth);
}

/// An interface is pinned where a policy of it gives a bandwidth.
pub open spec fn is_pinned(policies: Seq<NicPolicySelection>, endpoint: Seq<char>) -> bool {
    exists|i: int|
        0 <= i < policies.len() && (#[trigger] policies[i]).endpoint@ == endpoint && !blank(
            policies[i].udp_bandwidth@,
        )
}

/// The pinned interfaces are those whose policies give a bandwidth.
pub proof fn lemma_pinned_are_those_with_a_bandwidth(
    policies: Seq<NicPolicySelection>,
    endpoint: Seq<char>,
)
    ensures
        pinned_endpoints(policies).contains(endpoint) <==> is_pinned(policies, endpoint),
{
    lemma_pinned_members(policies, policies.len() as int, endpoint);
}

proof fn lemma_pinned_members(policies: Seq<NicPolicySelection>, n: int, x: Seq<char>)
    requires
        0 <= n <= policies.len(),
    ensures
        pinned_to(policies, n).contains(x) <==> exists|i: int|
            0 <= i < n && (#[trigger] policies[i]).endpoint@ == x && !blank(
                policies[i].udp_bandwidth@,
            ),
    decreases n,
{
    if n > 0 {
        lemma_pinned_members(policies, n - 1, x);
        let (before, after) = (pinned_to(policies, n - 1), pinned_to(policies, n));
        if before.contains(x) {
            let k = choose|k: int| 0 <= k < before.len() && before[k] == x;
            assert(after[k] == x);
        }
        if !blank(policies[n - 1].udp_bandwidth@) {
            assert(after[before.len() as int] == policies[n - 1].endpoint@);
            if after.contains(x) && !before.contains(x) {
                let k = choose|k: int| 0 <= k < after.len() && after[k] == x;
                if k < before.len() {
                    assert(before[k] == x);
                }
            }
        }
    }
}

/// Numbers of streams are in order from one to thirty-two.
pub proof fn lemma_streams_are_bounded(streams: Seq<u32>, x: u32)
    ensures
        streams_fit(streams) && streams.contains(x) ==> 1 <= x <= 32,
        streams_fit(streams) && 1 <= x <= 32 ==> streams_fit(streams.push(x)),
        x == 0 || x > 32 ==> !streams_fit(streams.push(x)),
{
    if streams_fit(streams) && streams.contains(x) {
        let i = choose|i: int| 0 <= i < streams.len() && streams[i] == x;
        assert(1 <= streams[i] <= 32);
    }
    if x == 0 || x > 32 {
        assert(streams.push(x)[streams.len() as int] == x);
    }
}

} // verus!
