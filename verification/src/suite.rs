//! From a suite plan to the tests that run it.
use vstd::prelude::*;
use vstd::string::*;
use crate::config::{
    copy_udp_profiles, Config, ConfigView, OneOrMany, RateTargets, TestSpec, TestSpecView,
    TotalTarget, UdpProfile, UdpProfileView, UiOrigin, UiOriginView,
};
use crate::model::{
    RunRequest, UiLinkSet, UiPairRef, UiRecipe, UiRecipeProfile, UiRecipeProfileView, UiRecipeView,
    UiRecipes, UiSuite, UiTask, UiU32Values,
};
use crate::plan::{
    clamp_duration, clamped_duration, directions_where, find_fixed_bandwidth, fixed_bandwidth,
    mbps_in, one_text, part_of_directions, read_mbps, read_total, some_trimmed, total_in,
    trim_to_some,
};
use crate::readings::Readings;
use crate::sweep::{
    at_least_one, choices, choices_of, cleaned_or, first_or_one, non_empty, nonzero,
    nonzero_numbers, opt_list, or_one, steps_or,
};
use crate::text::{
    blank, cat2, copy_numbers, copy_opt_numbers, copy_opt_text, copy_texts, decimal,
    decimal_text_wide, group_views, is_blank, join, joined, lists, opt_numbers, opt_text, opt_view,
    owned, same, texts, trim, trimmed, views,
};
use crate::validate::{cleaned, cleaned_list};
use crate::validate_plan::{
    canonical_ui_direction, canonical_ui_ip, direction_of, ip_of, task_protocol, ui_task_protocol,
};

verus! {

// ---------------------------------------------------------------------------
// Runs of a recipe
// ---------------------------------------------------------------------------

/// One TCP run of a recipe.
#[derive(Debug)]
pub struct UiTcpProfile {
    pub recipe_id: String,
    pub window: Option<String>,
    pub streams: u32,
}

/// What a [`UiTcpProfile`] holds.
pub ghost struct UiTcpProfileView {
    pub recipe_id: Seq<char>,
    pub window: Option<Seq<char>>,
    pub streams: u32,
}

impl View for UiTcpProfile {
    type V = UiTcpProfileView;

    open spec fn view(&self) -> UiTcpProfileView {
        UiTcpProfileView {
            recipe_id: self.recipe_id@,
            window: opt_text(self.window),
            streams: self.streams,
        }
    }
}

/// One UDP run of a recipe.
#[derive(Debug)]
pub struct UiUdpProfile {
    pub recipe_id: String,
    pub profile: UdpProfile,
    pub streams: u32,
}

/// What a [`UiUdpProfile`] holds.
pub ghost struct UiUdpProfileView {
    pub recipe_id: Seq<char>,
    pub profile: UdpProfileView,
    pub streams: u32,
}

impl View for UiUdpProfile {
    type V = UiUdpProfileView;

    open spec fn view(&self) -> UiUdpProfileView {
        UiUdpProfileView {
            recipe_id: self.recipe_id@,
            profile: self.profile@,
            streams: self.streams,
        }
    }
}

/// The first number of a list; one where it is empty.
pub open spec fn first_step(steps: Seq<u32>) -> u32 {
    if steps.len() > 0 {
        steps[0]
    } else {
        1
    }
}

/// The first number of a list; one where it is empty.
pub fn head_or_one(steps: &Vec<u32>) -> (r: u32)
    ensures
        r == first_step(steps@),
{
    if steps.len() > 0 {
        steps[0]
    } else {
        1
    }
}

/// A text trimmed, where it is there and anything is left of it.
pub open spec fn opt_trimmed(raw: Option<Seq<char>>) -> Option<Seq<char>> {
    match raw {
        Some(s) => some_trimmed(s),
        None => None,
    }
}

/// A text trimmed, where it is there and anything is left of it.
pub fn trim_opt(raw: &Option<String>) -> (r: Option<String>)
    ensures
        opt_text(r) == opt_trimmed(opt_text(*raw)),
{
    match raw {
        Some(s) => trim_to_some(s.as_str()),
        None => None,
    }
}

/// The stream counts of a profile: those of its protocol where given, else the common ones.
pub open spec fn own_streams(own: Option<Seq<u32>>, common: Seq<u32>) -> Seq<u32> {
    match own {
        Some(values) => values,
        None => common,
    }
}

/// The stream counts of a profile.
pub fn pick_streams(own: &Option<UiU32Values>, common: &UiU32Values) -> (r: Vec<u32>)
    ensures
        r@ == own_streams(opt_view(*own), common@),
{
    match own {
        Some(values) => values.values(),
        None => common.values(),
    }
}

/// One window with each number of streams.
pub open spec fn tcp_row(id: Seq<char>, window: Option<Seq<char>>, streams: Seq<u32>) -> Seq<
    UiTcpProfileView,
> {
    Seq::new(
        streams.len(),
        |i: int| UiTcpProfileView { recipe_id: id, window, streams: streams[i] },
    )
}

/// Adds one window with each number of streams.
pub fn push_tcp_row(
    out: &mut Vec<UiTcpProfile>,
    id: &str,
    window: &Option<String>,
    streams: &Vec<u32>,
)
    ensures
        views(final(out)@) == views(old(out)@) + tcp_row(id@, opt_text(*window), streams@),
{
    broadcast use group_views;

    let ghost before = views(out@);
    let ghost row = tcp_row(id@, opt_text(*window), streams@);
    let mut i: usize = 0;
    assert(before + row.take(0) =~= before);
    while i < streams.len()
        invariant
            i <= streams@.len(),
            row == tcp_row(id@, opt_text(*window), streams@),
            views(out@) == before + row.take(i as int),
        decreases streams@.len() - i,
    {
        let profile = UiTcpProfile {
            recipe_id: owned(id),
            window: copy_opt_text(window),
            streams: streams[i],
        };
        assert(profile@ == row[i as int]);
        out.push(profile);
        assert((before + row.take(i as int)).push(row[i as int]) =~= before + row.take(i + 1));
        i += 1;
    }
    assert(row.take(i as int) =~= row);
}

/// The runs of the first `n` complete profiles of a TCP recipe.
pub open spec fn tcp_profile_runs_to(recipe: UiRecipeView, fallback: Seq<u32>, n: int) -> Seq<
    UiTcpProfileView,
>
    decreases n,
{
    if n <= 0 {
        Seq::empty()
    } else {
        let profile = recipe.profiles[n - 1];
        tcp_profile_runs_to(recipe, fallback, n - 1) + tcp_row(
            recipe.id,
            opt_trimmed(profile.window),
            steps_or(own_streams(profile.tcp_streams, profile.streams), first_step(fallback)),
        )
    }
}

/// The runs of the first `n` windows of a TCP recipe.
pub open spec fn tcp_axis_runs_to(
    id: Seq<char>,
    windows: Seq<Option<Seq<char>>>,
    streams: Seq<u32>,
    n: int,
) -> Seq<UiTcpProfileView>
    decreases n,
{
    if n <= 0 {
        Seq::empty()
    } else {
        tcp_axis_runs_to(id, windows, streams, n - 1) + tcp_row(id, windows[n - 1], streams)
    }
}

/// The windows of a TCP recipe: its TCP windows, or its common ones where it has none.
pub open spec fn tcp_axis(recipe: UiRecipeView) -> Seq<Option<Seq<char>>> {
    choices(
        cleaned(
            if recipe.tcp_windows.len() > 0 {
                recipe.tcp_windows
            } else {
                recipe.windows
            },
        ),
    )
}

/// The runs of a TCP recipe: its complete profiles, or its windows with its numbers of streams.
pub open spec fn tcp_runs(recipe: UiRecipeView, fallback: Seq<u32>) -> Seq<UiTcpProfileView> {
    if recipe.profiles.len() > 0 {
        tcp_profile_runs_to(recipe, fallback, recipe.profiles.len() as int)
    } else {
        tcp_axis_runs_to(
            recipe.id,
            tcp_axis(recipe),
            steps_or(recipe.tcp_streams, first_step(fallback)),
            tcp_axis(recipe).len() as int,
        )
    }
}

/// The runs of a TCP recipe.
pub fn recipe_tcp_profiles(recipe: &UiRecipe, fallback: &Vec<u32>) -> (r: Vec<UiTcpProfile>)
    ensures
        views(r@) == tcp_runs(recipe@, fallback@),
{
    broadcast use group_views;

    let mut out: Vec<UiTcpProfile> = Vec::new();
    if recipe.profiles.len() > 0 {
        let mut i: usize = 0;
        while i < recipe.profiles.len()
            invariant
                i <= recipe.profiles@.len(),
                views(out@) == tcp_profile_runs_to(recipe@, fallback@, i as int),
            decreases recipe.profiles@.len() - i,
        {
            let profile = &recipe.profiles[i];
            assert(recipe@.profiles[i as int] == profile@);
            let own = pick_streams(&profile.tcp_streams, &profile.streams);
            let streams = first_or_one(&own, head_or_one(fallback));
            let window = trim_opt(&profile.window);
            push_tcp_row(&mut out, recipe.id.as_str(), &window, &streams);
            i += 1;
        }
        return out;
    }
    let windows = choices_of(
        &cleaned_list(
            if recipe.tcp_windows.len() > 0 {
                &recipe.tcp_windows
            } else {
                &recipe.windows
            },
        ),
    );
    let streams = first_or_one(&recipe.tcp_streams, head_or_one(fallback));
    assert(opt_list(windows@) == tcp_axis(recipe@));
    let mut i: usize = 0;
    while i < windows.len()
        invariant
            i <= windows@.len(),
            opt_list(windows@) == tcp_axis(recipe@),
            views(out@) == tcp_axis_runs_to(recipe@.id, tcp_axis(recipe@), streams@, i as int),
        decreases windows@.len() - i,
    {
        assert(opt_list(windows@)[i as int] == opt_text(windows@[i as int]));
        push_tcp_row(&mut out, recipe.id.as_str(), &windows[i], &streams);
        i += 1;
    }
    out
}

/// One load with each number of streams.
pub open spec fn udp_run_row(id: Seq<char>, profile: UdpProfileView, streams: Seq<u32>) -> Seq<
    UiUdpProfileView,
> {
    Seq::new(
        streams.len(),
        |i: int| UiUdpProfileView { recipe_id: id, profile, streams: streams[i] },
    )
}

/// Adds one load with each number of streams.
pub fn push_udp_row(
    out: &mut Vec<UiUdpProfile>,
    id: &str,
    profile: &UdpProfile,
    streams: &Vec<u32>,
)
    ensures
        views(final(out)@) == views(old(out)@) + udp_run_row(id@, profile@, streams@),
{
    broadcast use group_views;

    let ghost before = views(out@);
    let ghost row = udp_run_row(id@, profile@, streams@);
    let mut i: usize = 0;
    assert(before + row.take(0) =~= before);
    while i < streams.len()
        invariant
            i <= streams@.len(),
            row == udp_run_row(id@, profile@, streams@),
            views(out@) == before + row.take(i as int),
        decreases streams@.len() - i,
    {
        let run = UiUdpProfile {
            recipe_id: owned(id),
            profile: profile.clone(),
            streams: streams[i],
        };
        assert(run@ == row[i as int]);
        out.push(run);
        assert((before + row.take(i as int)).push(row[i as int]) =~= before + row.take(i + 1));
        i += 1;
    }
    assert(row.take(i as int) =~= row);
}

/// A load with its texts trimmed, and without those that are then empty.
pub open spec fn tidy_profile(profile: UdpProfileView) -> UdpProfileView {
    UdpProfileView {
        bandwidth: trimmed(profile.bandwidth),
        length: opt_trimmed(profile.length),
        window: opt_trimmed(profile.window),
    }
}

/// The runs of the first `n` plain loads of a recipe.
pub open spec fn plain_runs_to(recipe: UiRecipeView, streams: Seq<u32>, n: int) -> Seq<
    UiUdpProfileView,
>
    decreases n,
{
    if n <= 0 {
        Seq::empty()
    } else {
        plain_runs_to(recipe, streams, n - 1) + udp_run_row(
            recipe.id,
            tidy_profile(recipe.udp_profiles[n - 1]),
            streams,
        )
    }
}

/// The runs of one complete profile for its first `n` bandwidths.
pub open spec fn profile_bandwidth_runs_to(
    id: Seq<char>,
    profile: UiRecipeProfileView,
    bandwidths: Seq<Seq<char>>,
    streams: Seq<u32>,
    n: int,
) -> Seq<UiUdpProfileView>
    decreases n,
{
    if n <= 0 {
        Seq::empty()
    } else {
        profile_bandwidth_runs_to(id, profile, bandwidths, streams, n - 1) + udp_run_row(
            id,
            UdpProfileView {
                bandwidth: bandwidths[n - 1],
                length: opt_trimmed(profile.length),
                window: opt_trimmed(profile.window),
            },
            streams,
        )
    }
}

/// The bandwidths of a complete profile: its own, or those of the recipe.
pub open spec fn profile_bandwidths(recipe: UiRecipeView, profile: UiRecipeProfileView) -> Seq<
    Seq<char>,
> {
    match opt_trimmed(profile.bandwidth) {
        Some(bandwidth) => seq![bandwidth],
        None => cleaned(recipe.bandwidths),
    }
}

/// The runs of the first `n` complete profiles of a UDP recipe.
pub open spec fn udp_profile_runs_to(recipe: UiRecipeView, fallback: u32, n: int) -> Seq<
    UiUdpProfileView,
>
    decreases n,
{
    if n <= 0 {
        Seq::empty()
    } else {
        let profile = recipe.profiles[n - 1];
        let bandwidths = profile_bandwidths(recipe, profile);
        udp_profile_runs_to(recipe, fallback, n - 1) + profile_bandwidth_runs_to(
            recipe.id,
            profile,
            bandwidths,
            steps_or(own_streams(profile.udp_streams, profile.streams), fallback),
            bandwidths.len() as int,
        )
    }
}

/// The runs of a recipe's axes for one bandwidth and one length and the first `n` windows.
pub open spec fn window_runs_to(
    id: Seq<char>,
    bandwidth: Seq<char>,
    length: Option<Seq<char>>,
    windows: Seq<Option<Seq<char>>>,
    streams: Seq<u32>,
    n: int,
) -> Seq<UiUdpProfileView>
    decreases n,
{
    if n <= 0 {
        Seq::empty()
    } else {
        window_runs_to(id, bandwidth, length, windows, streams, n - 1) + udp_run_row(
            id,
            UdpProfileView { bandwidth, length, window: windows[n - 1] },
            streams,
        )
    }
}

/// The runs of a recipe's axes for one bandwidth and the first `n` lengths.
pub open spec fn length_runs_to(
    id: Seq<char>,
    bandwidth: Seq<char>,
    lengths: Seq<Option<Seq<char>>>,
    windows: Seq<Option<Seq<char>>>,
    streams: Seq<u32>,
    n: int,
) -> Seq<UiUdpProfileView>
    decreases n,
{
    if n <= 0 {
        Seq::empty()
    } else {
        length_runs_to(id, bandwidth, lengths, windows, streams, n - 1) + window_runs_to(
            id,
            bandwidth,
            lengths[n - 1],
            windows,
            streams,
            windows.len() as int,
        )
    }
}

/// The runs of a recipe's axes for the first `n` bandwidths.
pub open spec fn axis_runs_to(
    id: Seq<char>,
    bandwidths: Seq<Seq<char>>,
    lengths: Seq<Option<Seq<char>>>,
    windows: Seq<Option<Seq<char>>>,
    streams: Seq<u32>,
    n: int,
) -> Seq<UiUdpProfileView>
    decreases n,
{
    if n <= 0 {
        Seq::empty()
    } else {
        axis_runs_to(id, bandwidths, lengths, windows, streams, n - 1) + length_runs_to(
            id,
            bandwidths[n - 1],
            lengths,
            windows,
            streams,
            lengths.len() as int,
        )
    }
}

/// The runs of a UDP recipe: its plain loads, or its complete profiles, or its axes crossed.
pub open spec fn udp_runs(
    recipe: UiRecipeView,
    fallback_bandwidths: Seq<Seq<char>>,
    fallback_streams: u32,
) -> Seq<UiUdpProfileView> {
    let streams = steps_or(recipe.udp_streams, fallback_streams);
    let bandwidths = cleaned_or(recipe.bandwidths, cleaned(fallback_bandwidths));
    if recipe.udp_profiles.len() > 0 {
        plain_runs_to(recipe, streams, recipe.udp_profiles.len() as int)
    } else if recipe.profiles.len() > 0 {
        udp_profile_runs_to(recipe, fallback_streams, recipe.profiles.len() as int)
    } else {
        axis_runs_to(
            recipe.id,
            bandwidths,
            choices(cleaned(recipe.lengths)),
            choices(cleaned(recipe.windows)),
            streams,
            bandwidths.len() as int,
        )
    }
}

/// The runs of the plain loads of a recipe.
pub fn plain_udp_runs(recipe: &UiRecipe, streams: &Vec<u32>) -> (r: Vec<UiUdpProfile>)
    ensures
        views(r@) == plain_runs_to(recipe@, streams@, recipe.udp_profiles@.len() as int),
{
    broadcast use group_views;

    let mut out: Vec<UiUdpProfile> = Vec::new();
    let mut i: usize = 0;
    while i < recipe.udp_profiles.len()
        invariant
            i <= recipe.udp_profiles@.len(),
            views(out@) == plain_runs_to(recipe@, streams@, i as int),
        decreases recipe.udp_profiles@.len() - i,
    {
        let own = &recipe.udp_profiles[i];
        let profile = UdpProfile {
            bandwidth: owned(trim(own.bandwidth.as_str())),
            length: trim_opt(&own.length),
            window: trim_opt(&own.window),
        };
        assert(profile@ == tidy_profile(recipe@.udp_profiles[i as int]));
        push_udp_row(&mut out, recipe.id.as_str(), &profile, streams);
        i += 1;
    }
    out
}

/// Adds the runs of one complete profile.
pub fn push_profile_runs(
    out: &mut Vec<UiUdpProfile>,
    id: &str,
    profile: &UiRecipeProfile,
    bandwidths: &Vec<String>,
    streams: &Vec<u32>,
)
    ensures
        views(final(out)@) == views(old(out)@) + profile_bandwidth_runs_to(
            id@,
            profile@,
            texts(bandwidths@),
            streams@,
            bandwidths@.len() as int,
        ),
{
    broadcast use group_views;

    let ghost before = views(out@);
    let ghost list = texts(bandwidths@);
    let mut i: usize = 0;
    assert(before + Seq::<UiUdpProfileView>::empty() =~= before);
    while i < bandwidths.len()
        invariant
            i <= bandwidths@.len(),
            list == texts(bandwidths@),
            views(out@) == before + profile_bandwidth_runs_to(
                id@,
                profile@,
                list,
                streams@,
                i as int,
            ),
        decreases bandwidths@.len() - i,
    {
        let load = UdpProfile {
            bandwidth: owned(bandwidths[i].as_str()),
            length: trim_opt(&profile.length),
            window: trim_opt(&profile.window),
        };
        assert(list[i as int] == load@.bandwidth);
        let ghost done = profile_bandwidth_runs_to(id@, profile@, list, streams@, i as int);
        push_udp_row(out, id, &load, streams);
        assert((before + done) + udp_run_row(id@, load@, streams@) =~= before + (done + udp_run_row(
            id@,
            load@,
            streams@,
        )));
        i += 1;
    }
}

/// The runs of the complete profiles of a UDP recipe.
pub fn profile_udp_runs(recipe: &UiRecipe, fallback: u32) -> (r: Vec<UiUdpProfile>)
    ensures
        views(r@) == udp_profile_runs_to(recipe@, fallback, recipe.profiles@.len() as int),
{
    broadcast use group_views;

    let mut out: Vec<UiUdpProfile> = Vec::new();
    let mut i: usize = 0;
    while i < recipe.profiles.len()
        invariant
            i <= recipe.profiles@.len(),
            views(out@) == udp_profile_runs_to(recipe@, fallback, i as int),
        decreases recipe.profiles@.len() - i,
    {
        let profile = &recipe.profiles[i];
        assert(recipe@.profiles[i as int] == profile@);
        let bandwidths = match trim_opt(&profile.bandwidth) {
            Some(bandwidth) => one_text(bandwidth.as_str()),
            None => cleaned_list(&recipe.bandwidths),
        };
        assert(texts(bandwidths@) == profile_bandwidths(recipe@, profile@));
        assert(texts(bandwidths@).len() == bandwidths@.len());
        let own = pick_streams(&profile.udp_streams, &profile.streams);
        let streams = first_or_one(&own, fallback);
        push_profile_runs(&mut out, recipe.id.as_str(), profile, &bandwidths, &streams);
        i += 1;
    }
    out
}

/// Adds the runs of a recipe's axes for one bandwidth and one length.
pub fn push_window_runs(
    out: &mut Vec<UiUdpProfile>,
    id: &str,
    bandwidth: &str,
    length: &Option<String>,
    windows: &Vec<Option<String>>,
    streams: &Vec<u32>,
)
    ensures
        views(final(out)@) == views(old(out)@) + window_runs_to(
            id@,
            bandwidth@,
            opt_text(*length),
            opt_list(windows@),
            streams@,
            windows@.len() as int,
        ),
{
    broadcast use group_views;

    let ghost before = views(out@);
    let ghost list = opt_list(windows@);
    let ghost len = opt_text(*length);
    let mut i: usize = 0;
    assert(before + Seq::<UiUdpProfileView>::empty() =~= before);
    while i < windows.len()
        invariant
            i <= windows@.len(),
            list == opt_list(windows@),
            len == opt_text(*length),
            views(out@) == before + window_runs_to(
                id@,
                bandwidth@,
                len,
                list,
                streams@,
                i as int,
            ),
        decreases windows@.len() - i,
    {
        let load = UdpProfile {
            bandwidth: owned(bandwidth),
            length: copy_opt_text(length),
            window: copy_opt_text(&windows[i]),
        };
        assert(load@ == (UdpProfileView {
            bandwidth: bandwidth@,
            length: len,
            window: list[i as int],
        }));
        let ghost done = window_runs_to(id@, bandwidth@, len, list, streams@, i as int);
        push_udp_row(out, id, &load, streams);
        assert((before + done) + udp_run_row(id@, load@, streams@) =~= before + (done + udp_run_row(
            id@,
            load@,
            streams@,
        )));
        i += 1;
    }
}

/// Adds the runs of a recipe's axes for one bandwidth.
pub fn push_length_runs(
    out: &mut Vec<UiUdpProfile>,
    id: &str,
    bandwidth: &str,
    lengths: &Vec<Option<String>>,
    windows: &Vec<Option<String>>,
    streams: &Vec<u32>,
)
    ensures
        views(final(out)@) == views(old(out)@) + length_runs_to(
            id@,
            bandwidth@,
            opt_list(lengths@),
            opt_list(windows@),
            streams@,
            lengths@.len() as int,
        ),
{
    let ghost before = views(out@);
    let ghost ls = opt_list(lengths@);
    let ghost ws = opt_list(windows@);
    let mut i: usize = 0;
    assert(before + Seq::<UiUdpProfileView>::empty() =~= before);
    while i < lengths.len()
        invariant
            i <= lengths@.len(),
            ls == opt_list(lengths@),
            ws == opt_list(windows@),
            ws.len() == windows@.len(),
            views(out@) == before + length_runs_to(
                id@,
                bandwidth@,
                ls,
                ws,
                streams@,
                i as int,
            ),
        decreases lengths@.len() - i,
    {
        let ghost done = length_runs_to(id@, bandwidth@, ls, ws, streams@, i as int);
        let ghost more = window_runs_to(
            id@,
            bandwidth@,
            ls[i as int],
            ws,
            streams@,
            ws.len() as int,
        );
        assert(ls[i as int] == opt_text(lengths@[i as int]));
        push_window_runs(out, id, bandwidth, &lengths[i], windows, streams);
        assert((before + done) + more =~= before + (done + more));
        i += 1;
    }
}

/// The runs of a UDP recipe: its plain loads, or its complete profiles, or its axes crossed.
pub fn recipe_udp_profiles(
    recipe: &UiRecipe,
    fallback_bandwidths: &Vec<String>,
    fallback_streams: u32,
) -> (r: Vec<UiUdpProfile>)
    ensures
        views(r@) == udp_runs(recipe@, texts(fallback_bandwidths@), fallback_streams),
{
    broadcast use group_views;

    let streams = first_or_one(&recipe.udp_streams, fallback_streams);
    if recipe.udp_profiles.len() > 0 {
        return plain_udp_runs(recipe, &streams);
    }
    if recipe.profiles.len() > 0 {
        return profile_udp_runs(recipe, fallback_streams);
    }
    let spare = cleaned_list(fallback_bandwidths);
    let bandwidths = non_empty(&recipe.bandwidths, &spare);
    let lengths = choices_of(&cleaned_list(&recipe.lengths));
    let windows = choices_of(&cleaned_list(&recipe.windows));
    let ghost bs = texts(bandwidths@);
    let ghost ls = opt_list(lengths@);
    let ghost ws = opt_list(windows@);
    let mut out: Vec<UiUdpProfile> = Vec::new();
    let mut i: usize = 0;
    while i < bandwidths.len()
        invariant
            i <= bandwidths@.len(),
            bs == texts(bandwidths@),
            ls == opt_list(lengths@),
            ws == opt_list(windows@),
            ls.len() == lengths@.len(),
            views(out@) == axis_runs_to(recipe@.id, bs, ls, ws, streams@, i as int),
        decreases bandwidths@.len() - i,
    {
        assert(bs[i as int] == bandwidths@[i as int]@);
        push_length_runs(
            &mut out,
            recipe.id.as_str(),
            bandwidths[i].as_str(),
            &lengths,
            &windows,
            &streams,
        );
        i += 1;
    }
    out
}

// ---------------------------------------------------------------------------
// What the tests of a task have in common
// ---------------------------------------------------------------------------

/// A list with a text added where it is missing.
pub open spec fn with_text(list: Seq<Seq<char>>, text: Seq<char>) -> Seq<Seq<char>> {
    if list.contains(text) {
        list
    } else {
        list.push(text)
    }
}

/// Adds a text to a list where it is missing.
pub fn push_missing(list: &mut Vec<String>, text: &str)
    ensures
        texts(final(list)@) == with_text(texts(old(list)@), text@),
{
    broadcast use group_views;

    if !lists(list, text) {
        list.push(owned(text));
    }
}

/// The directions that the first `n` texts mean, each once; `both` means one after the other.
pub open spec fn directions_meant_to(raw: Seq<Seq<char>>, n: int) -> Seq<Seq<char>>
    decreases n,
{
    if n <= 0 {
        Seq::empty()
    } else {
        let before = directions_meant_to(raw, n - 1);
        match direction_of(raw[n - 1]) {
            None => before,
            Some(direction) => if direction == "both"@ {
                with_text(with_text(before, "ab"@), "ba"@)
            } else {
                with_text(before, direction)
            },
        }
    }
}

/// The directions that texts mean, each once.
pub open spec fn directions_meant(raw: Seq<Seq<char>>) -> Seq<Seq<char>> {
    directions_meant_to(raw, raw.len() as int)
}

/// The directions that texts mean, each once.
pub fn normalized_ui_directions(raw: &Vec<String>) -> (r: Vec<String>)
    ensures
        texts(r@) == directions_meant(texts(raw@)),
{
    broadcast use group_views;

    let mut out: Vec<String> = Vec::new();
    let mut i: usize = 0;
    while i < raw.len()
        invariant
            i <= raw@.len(),
            texts(out@) == directions_meant_to(texts(raw@), i as int),
        decreases raw@.len() - i,
    {
        assert(texts(raw@)[i as int] == raw@[i as int]@);
        if let Some(direction) = canonical_ui_direction(raw[i].as_str()) {
            if same(direction, "both") {
                push_missing(&mut out, "ab");
                push_missing(&mut out, "ba");
            } else {
                push_missing(&mut out, direction);
            }
        }
        i += 1;
    }
    out
}

/// The IP versions that the first `n` texts mean, each once.
pub open spec fn versions_meant_to(raw: Seq<Seq<char>>, n: int) -> Seq<Seq<char>>
    decreases n,
{
    if n <= 0 {
        Seq::empty()
    } else {
        match ip_of(raw[n - 1]) {
            None => versions_meant_to(raw, n - 1),
            Some(ip) => with_text(versions_meant_to(raw, n - 1), ip),
        }
    }
}

/// The IP versions that texts mean, each once.
pub open spec fn versions_meant(raw: Seq<Seq<char>>) -> Seq<Seq<char>> {
    versions_meant_to(raw, raw.len() as int)
}

/// The IP versions that texts mean, each once.
pub fn normalized_ui_ips(raw: &Vec<String>) -> (r: Vec<String>)
    ensures
        texts(r@) == versions_meant(texts(raw@)),
{
    broadcast use group_views;

    let mut out: Vec<String> = Vec::new();
    let mut i: usize = 0;
    while i < raw.len()
        invariant
            i <= raw@.len(),
            texts(out@) == versions_meant_to(texts(raw@), i as int),
        decreases raw@.len() - i,
    {
        assert(texts(raw@)[i as int] == raw@[i as int]@);
        if let Some(ip) = canonical_ui_ip(raw[i].as_str()) {
            push_missing(&mut out, ip);
        }
        i += 1;
    }
    out
}

/// The threshold of a task on the sum of both directions.
pub fn ui_task_bidir_total(rd: &Readings, task: &UiTask) -> (r: Option<TotalTarget>)
    ensures
        r == total_in(*rd, task.rx_target_bidir_total@),
{
    read_total(rd, task.rx_target_bidir_total.as_str())
}

/// The thresholds of a task for both directions at once.
pub open spec fn task_bidir_targets(rd: Readings, task: UiTask) -> Option<RateTargets> {
    let ab = mbps_in(rd, task.rx_target_bidir_ab@);
    let ba = mbps_in(rd, task.rx_target_bidir_ba@);
    if ab is Some || ba is Some {
        Some(RateTargets { forward: None, ab, ba })
    } else {
        None
    }
}

/// The thresholds of a task for both directions at once.
pub fn ui_task_targets(rd: &Readings, task: &UiTask) -> (r: Option<RateTargets>)
    ensures
        r == task_bidir_targets(*rd, *task),
{
    let ab = read_mbps(rd, task.rx_target_bidir_ab.as_str());
    let ba = read_mbps(rd, task.rx_target_bidir_ba.as_str());
    if ab.is_some() || ba.is_some() {
        Some(RateTargets { forward: None, ab, ba })
    } else {
        None
    }
}

/// The name under which a link set's results are grouped.
pub fn ui_link_group(set: &UiLinkSet) -> (r: Option<String>)
    ensures
        opt_text(r) == some_trimmed(set.name@),
{
    trim_to_some(set.name.as_str())
}

/// Where a test of a plan comes from.
pub open spec fn origin_of(
    set: UiLinkSet,
    binding_id: Seq<char>,
    pair: UiPairRef,
    suite: UiSuite,
    task: UiTask,
    recipe_id: Seq<char>,
) -> UiOriginView {
    UiOriginView {
        pair_id: pair.id@,
        link_set_id: set.id@,
        link_set_name: set.name@,
        binding_id,
        suite_id: suite.id@,
        task_id: task.id@,
        recipe_id,
    }
}

/// Where a test of a plan comes from.
pub fn ui_origin_for(
    set: &UiLinkSet,
    binding_id: &str,
    pair: &UiPairRef,
    suite: &UiSuite,
    task: &UiTask,
    recipe_id: &str,
) -> (r: UiOrigin)
    ensures
        r@ == origin_of(*set, binding_id@, *pair, *suite, *task, recipe_id@),
{
    UiOrigin {
        pair_id: pair.id.clone(),
        link_set_id: set.id.clone(),
        link_set_name: set.name.clone(),
        binding_id: owned(binding_id),
        suite_id: suite.id.clone(),
        task_id: task.id.clone(),
        recipe_id: owned(recipe_id),
    }
}

/// The parts of a test's name: those of suite, task and label that are not blank.
pub open spec fn name_parts(suite: UiSuite, task: UiTask, label: Seq<char>) -> Seq<Seq<char>> {
    (if blank(suite.name@) {
        Seq::<Seq<char>>::empty()
    } else {
        seq![trimmed(suite.name@)]
    }) + (if blank(task.name@) {
        Seq::<Seq<char>>::empty()
    } else {
        seq![trimmed(task.name@)]
    }) + (if label.len() == 0 {
        Seq::<Seq<char>>::empty()
    } else {
        seq![label]
    })
}

/// The name of a test of a plan.
pub open spec fn display_name(suite: UiSuite, task: UiTask, label: Seq<char>) -> Seq<char> {
    let parts = name_parts(suite, task, label);
    if parts.len() == 0 {
        "ui-plan"@
    } else {
        joined(parts, " · "@)
    }
}

/// The name of a test of a plan.
pub fn ui_display_name(suite: &UiSuite, task: &UiTask, label: &str) -> (r: String)
    ensures
        r@ == display_name(*suite, *task, label@),
{
    broadcast use group_views;

    let mut parts: Vec<String> = Vec::new();
    if !is_blank(suite.name.as_str()) {
        parts.push(owned(trim(suite.name.as_str())));
    }
    if !is_blank(task.name.as_str()) {
        parts.push(owned(trim(task.name.as_str())));
    }
    if !label.is_empty() {
        parts.push(owned(label));
    }
    assert(texts(parts@) =~= name_parts(*suite, *task, label@));
    assert(texts(parts@).len() == parts@.len());
    if parts.len() == 0 {
        return owned("ui-plan");
    }
    join(&parts, " · ")
}

/// The duration of a task's tests.
pub open spec fn task_duration(task: UiTask, duration: u64) -> u64 {
    clamped_duration(
        match task.duration {
            Some(own) => own,
            None => duration,
        },
    )
}

/// What all tests of a task have in common.
pub open spec fn task_base(
    rd: Readings,
    name: Seq<char>,
    pair: UiPairRef,
    task: UiTask,
    protocol: Seq<char>,
    directions: Seq<Seq<char>>,
    ips: Seq<Seq<char>>,
    duration: u64,
) -> TestSpecView {
    TestSpecView {
        name,
        src: pair.src@,
        dst: pair.dst@,
        direction: directions,
        direction_listed: true,
        kinds: if protocol == "ping"@ {
            seq!["ping"@]
        } else {
            seq!["iperf"@]
        },
        transports: if protocol == "ping"@ {
            Seq::empty()
        } else {
            seq![protocol]
        },
        ip: ips,
        streams: 1,
        tcp_streams: None,
        udp_streams: None,
        iperf_duration: Some(task_duration(task, duration)),
        ping_count: match task.ping_count {
            Some(count) => if count > 0 {
                Some(count)
            } else {
                None
            },
            None => None,
        },
        ping_payload_sizes: opt_numbers(task.ping_payload_sizes),
        tcp_windows: None,
        udp_profiles: None,
        rate_mode: task.rate_mode,
        rate_targets_mbps: task.rate_targets_mbps,
        rate_targets_bidir_mbps: task_bidir_targets(rd, task),
        rate_target_bidir_total_mbps: total_in(rd, task.rx_target_bidir_total@),
        link_group: None,
        origin: None,
    }
}

/// What all tests of a task have in common.
pub fn ui_task_base_spec(
    rd: &Readings,
    name: String,
    pair: &UiPairRef,
    task: &UiTask,
    protocol: &str,
    directions: &Vec<String>,
    ips: &Vec<String>,
    duration: u64,
) -> (r: TestSpec)
    ensures
        r@ == task_base(
            *rd,
            name@,
            *pair,
            *task,
            protocol@,
            texts(directions@),
            texts(ips@),
            duration,
        ),
{
    broadcast use group_views;

    let ping = same(protocol, "ping");
    let ping_count = match task.ping_count {
        Some(count) => if count > 0 {
            Some(count)
        } else {
            None
        },
        None => None,
    };
    let own_duration: u64 = match task.duration {
        Some(own) => own,
        None => duration,
    };
    TestSpec {
        name,
        src: pair.src.clone(),
        dst: pair.dst.clone(),
        direction: OneOrMany::Many(copy_texts(directions)),
        kinds: if ping {
            one_text("ping")
        } else {
            one_text("iperf")
        },
        transports: if ping {
            Vec::new()
        } else {
            one_text(protocol)
        },
        ip: copy_texts(ips),
        streams: 1,
        tcp_streams: None,
        udp_streams: None,
        iperf_duration: Some(clamp_duration(own_duration)),
        ping_count,
        ping_payload_sizes: copy_opt_numbers(&task.ping_payload_sizes),
        tcp_windows: None,
        udp_profiles: None,
        rate_mode: task.rate_mode,
        rate_targets_mbps: task.rate_targets_mbps,
        rate_targets_bidir_mbps: ui_task_targets(rd, task),
        rate_target_bidir_total_mbps: ui_task_bidir_total(rd, task),
        link_group: None,
        origin: None,
    }
}

// ---------------------------------------------------------------------------
// Tests of a task
// ---------------------------------------------------------------------------

/// A test of a task, its load apart.
pub open spec fn task_test(
    rd: Readings,
    pair: UiPairRef,
    suite: UiSuite,
    task: UiTask,
    req: RunRequest,
    binding_id: Seq<char>,
    set: UiLinkSet,
    protocol: Seq<char>,
    directions: Seq<Seq<char>>,
    label: Seq<char>,
    recipe_id: Seq<char>,
) -> TestSpecView {
    TestSpecView {
        origin: Some(origin_of(set, binding_id, pair, suite, task, recipe_id)),
        link_group: some_trimmed(set.name@),
        ..task_base(
            rd,
            display_name(suite, task, label),
            pair,
            task,
            protocol,
            directions,
            versions_meant(texts(task.ip@)),
            req.duration,
        )
    }
}

/// A test of a task, its load apart.
pub fn task_spec(
    rd: &Readings,
    pair: &UiPairRef,
    suite: &UiSuite,
    task: &UiTask,
    req: &RunRequest,
    binding_id: &str,
    set: &UiLinkSet,
    protocol: &str,
    directions: &Vec<String>,
    label: &str,
    recipe_id: &str,
) -> (r: TestSpec)
    ensures
        r@ == task_test(
            *rd, *pair, *suite, *task, *req, binding_id@, *set,
            protocol@,
            texts(directions@),
            label@,
            recipe_id@,
        ),
{
    let ips = normalized_ui_ips(&task.ip);
    let mut spec = ui_task_base_spec(
        rd,
        ui_display_name(suite, task, label),
        pair,
        task,
        protocol,
        directions,
        &ips,
        req.duration,
    );
    spec.origin = Some(ui_origin_for(set, binding_id, pair, suite, task, recipe_id));
    spec.link_group = ui_link_group(set);
    spec
}

/// The index of the first recipe with that id from `i` on; the length where there is none.
pub open spec fn recipe_index(recipes: Seq<UiRecipe>, id: Seq<char>, i: int) -> int
    decreases recipes.len() - i,
{
    if i < 0 || i >= recipes.len() {
        recipes.len() as int
    } else if recipes[i].id@ == id {
        i
    } else {
        recipe_index(recipes, id, i + 1)
    }
}

/// The index of the first recipe with that id; the length where there is none.
pub fn find_recipe(recipes: &Vec<UiRecipe>, id: &str) -> (r: usize)
    ensures
        r == recipe_index(recipes@, id@, 0),
        r <= recipes@.len(),
{
    let mut i: usize = 0;
    while i < recipes.len()
        invariant
            i <= recipes@.len(),
            recipe_index(recipes@, id@, 0) == recipe_index(recipes@, id@, i as int),
        decreases recipes@.len() - i,
    {
        if same(recipes[i].id.as_str(), id) {
            return i;
        }
        i += 1;
    }
    i
}

/// The recipes that the first `n` ids refer to; an id that no recipe has refers to nothing.
pub open spec fn referred_to(recipes: Seq<UiRecipe>, ids: Seq<Seq<char>>, n: int) -> Seq<
    UiRecipeView,
>
    decreases n,
{
    if n <= 0 {
        Seq::empty()
    } else {
        let at = recipe_index(recipes, ids[n - 1], 0);
        if at < recipes.len() {
            referred_to(recipes, ids, n - 1).push(recipes[at]@)
        } else {
            referred_to(recipes, ids, n - 1)
        }
    }
}

/// The recipes of a task: those it refers to, or `fallback` where there are none.
pub open spec fn task_recipes(
    recipes: Seq<UiRecipe>,
    ids: Seq<Seq<char>>,
    fallback: UiRecipeView,
) -> Seq<UiRecipeView> {
    let referred = referred_to(recipes, ids, ids.len() as int);
    if referred.len() == 0 {
        seq![fallback]
    } else {
        referred
    }
}

/// The recipes of a task: those it refers to, or `fallback` where there are none.
pub fn recipes_of_task<'a>(
    recipes: &'a Vec<UiRecipe>,
    ids: &Vec<String>,
    fallback: &'a UiRecipe,
) -> (r: Vec<&'a UiRecipe>)
    ensures
        views(r@) == task_recipes(recipes@, texts(ids@), fallback@),
{
    broadcast use group_views;

    let mut r: Vec<&'a UiRecipe> = Vec::new();
    let mut i: usize = 0;
    while i < ids.len()
        invariant
            i <= ids@.len(),
            views(r@) == referred_to(recipes@, texts(ids@), i as int),
        decreases ids@.len() - i,
    {
        assert(texts(ids@)[i as int] == ids@[i as int]@);
        let at: usize = find_recipe(recipes, ids[i].as_str());
        if at < recipes.len() {
            r.push(&recipes[at]);
        }
        i += 1;
    }
    assert(views(r@).len() == r@.len());
    if r.len() == 0 {
        r.push(fallback);
        assert(views(r@) =~= seq![fallback@]);
    }
    r
}

/// A recipe that says nothing.
pub open spec fn empty_recipe(id: Seq<char>, name: Seq<char>) -> UiRecipeView {
    UiRecipeView {
        id,
        name,
        mode: Seq::empty(),
        profiles: Seq::empty(),
        tcp_windows: Seq::empty(),
        tcp_streams: Seq::empty(),
        bandwidths: Seq::empty(),
        lengths: Seq::empty(),
        windows: Seq::empty(),
        udp_streams: Seq::empty(),
        udp_profiles: Seq::empty(),
    }
}

/// A recipe that says nothing.
pub fn new_recipe(id: &str, name: &str) -> (r: UiRecipe)
    ensures
        r@ == empty_recipe(id@, name@),
{
    broadcast use group_views;

    UiRecipe {
        id: owned(id),
        name: owned(name),
        mode: String::new(),
        profiles: Vec::new(),
        tcp_windows: Vec::new(),
        tcp_streams: Vec::new(),
        bandwidths: Vec::new(),
        lengths: Vec::new(),
        windows: Vec::new(),
        udp_streams: Vec::new(),
        udp_profiles: Vec::new(),
    }
}

/// The recipe of TCP tasks that refer to none.
pub open spec fn default_tcp_recipe(req: RunRequest, cfg: ConfigView) -> UiRecipeView {
    UiRecipeView {
        tcp_windows: cleaned_or(texts(req.tcp_windows@), cfg.iperf.tcp_windows),
        tcp_streams: nonzero(req.tcp_streams@),
        ..empty_recipe("default"@, "默认 TCP"@)
    }
}

/// The bandwidths of UDP recipes that give none.
pub open spec fn default_bandwidths(req: RunRequest, cfg: ConfigView) -> Seq<Seq<char>> {
    if req.udp_bandwidths@.len() == 0 {
        Seq::new(
            cfg.iperf.udp_profiles.len(),
            |i: int| cfg.iperf.udp_profiles[i].bandwidth,
        )
    } else {
        texts(req.udp_bandwidths@)
    }
}

/// The recipe of UDP tasks that refer to none. Where the request leaves all axes empty, the
/// configured loads run as they are.
pub open spec fn default_udp_recipe(req: RunRequest, cfg: ConfigView) -> UiRecipeView {
    UiRecipeView {
        bandwidths: default_bandwidths(req, cfg),
        lengths: texts(req.udp_lengths@),
        windows: texts(req.udp_windows@),
        udp_streams: seq![at_least_one(req.udp_streams)],
        udp_profiles: if req.udp_bandwidths@.len() == 0 && req.udp_lengths@.len() == 0
            && req.udp_windows@.len() == 0 {
            cfg.iperf.udp_profiles
        } else {
            Seq::empty()
        },
        ..empty_recipe("default"@, "默认 UDP"@)
    }
}

/// The bandwidths of UDP recipes that give none.
pub fn pick_default_bandwidths(req: &RunRequest, cfg: &Config) -> (r: Vec<String>)
    ensures
        texts(r@) == default_bandwidths(*req, cfg@),
{
    broadcast use group_views;

    if req.udp_bandwidths.len() > 0 {
        return copy_texts(&req.udp_bandwidths);
    }
    let profiles = &cfg.iperf.udp_profiles;
    let ghost all = default_bandwidths(*req, cfg@);
    let mut r: Vec<String> = Vec::new();
    let mut i: usize = 0;
    while i < profiles.len()
        invariant
            i <= profiles@.len(),
            profiles@ == cfg.iperf.udp_profiles@,
            all == default_bandwidths(*req, cfg@),
            req.udp_bandwidths@.len() == 0,
            texts(r@) == all.take(i as int),
        decreases profiles@.len() - i,
    {
        assert(all[i as int] == profiles@[i as int].bandwidth@);
        r.push(owned(profiles[i].bandwidth.as_str()));
        assert(all.take(i as int).push(all[i as int]) =~= all.take(i + 1));
        i += 1;
    }
    assert(all.take(i as int) =~= all);
    r
}

/// The runs of the first `n` recipes of a TCP task.
pub open spec fn tcp_task_runs_to(
    recipes: Seq<UiRecipeView>,
    fallback: Seq<u32>,
    n: int,
) -> Seq<UiTcpProfileView>
    decreases n,
{
    if n <= 0 {
        Seq::empty()
    } else {
        tcp_task_runs_to(recipes, fallback, n - 1) + tcp_runs(recipes[n - 1], fallback)
    }
}

/// The runs of a TCP task.
pub open spec fn tcp_task_runs(
    recipes: UiRecipes,
    task: UiTask,
    req: RunRequest,
    cfg: ConfigView,
) -> Seq<UiTcpProfileView> {
    let chosen = task_recipes(
        recipes.tcp@,
        texts(task.recipe_ids@),
        default_tcp_recipe(req, cfg),
    );
    tcp_task_runs_to(chosen, nonzero(req.tcp_streams@), chosen.len() as int)
}

/// The runs of a TCP task.
pub fn runs_of_tcp_task(recipes: &UiRecipes, task: &UiTask, req: &RunRequest, cfg: &Config) -> (r:
    Vec<UiTcpProfile>)
    ensures
        views(r@) == tcp_task_runs(*recipes, *task, *req, cfg@),
{
    broadcast use group_views;

    let streams = nonzero_numbers(&req.tcp_streams);
    let mut fallback = new_recipe("default", "默认 TCP");
    fallback.tcp_windows = non_empty(&req.tcp_windows, &cfg.iperf.tcp_windows);
    fallback.tcp_streams = copy_numbers(&streams);
    assert(fallback@ == default_tcp_recipe(*req, cfg@));
    let chosen = recipes_of_task(&recipes.tcp, &task.recipe_ids, &fallback);
    let ghost all = views(chosen@);
    let mut r: Vec<UiTcpProfile> = Vec::new();
    let mut i: usize = 0;
    while i < chosen.len()
        invariant
            i <= chosen@.len(),
            all == views(chosen@),
            views(r@) == tcp_task_runs_to(all, streams@, i as int),
        decreases chosen@.len() - i,
    {
        assert(all[i as int] == chosen@[i as int]@);
        let mut more = recipe_tcp_profiles(chosen[i], &streams);
        r.append(&mut more);
        i += 1;
    }
    r
}

/// The windows that a TCP run passes on.
pub open spec fn run_windows(window: Option<Seq<char>>) -> Seq<Seq<char>> {
    match window {
        Some(w) => seq![w],
        None => Seq::empty(),
    }
}

/// The test of one TCP run.
pub open spec fn tcp_run_test(
    rd: Readings,
    pair: UiPairRef,
    suite: UiSuite,
    task: UiTask,
    req: RunRequest,
    binding_id: Seq<char>,
    set: UiLinkSet,
    run: UiTcpProfileView,
) -> TestSpecView {
    TestSpecView {
        tcp_streams: Some(run.streams),
        tcp_windows: Some(run_windows(run.window)),
        ..task_test(
            rd, pair, suite, task, req, binding_id, set,
            "tcp"@,
            directions_meant(texts(task.directions@)),
            "TCP -P "@ + decimal(run.streams as nat),
            run.recipe_id,
        )
    }
}

/// The tests of TCP runs.
pub open spec fn tcp_run_tests(
    rd: Readings,
    pair: UiPairRef,
    suite: UiSuite,
    task: UiTask,
    req: RunRequest,
    binding_id: Seq<char>,
    set: UiLinkSet,
    runs: Seq<UiTcpProfileView>,
) -> Seq<TestSpecView> {
    Seq::new(runs.len(), |i: int| tcp_run_test(rd, pair, suite, task, req, binding_id, set, runs[i]))
}

/// The tests of a TCP task.
pub fn tcp_specs_for_task(
    rd: &Readings,
    pair: &UiPairRef,
    suite: &UiSuite,
    task: &UiTask,
    req: &RunRequest,
    binding_id: &str,
    set: &UiLinkSet,
    runs: &Vec<UiTcpProfile>,
) -> (r: Vec<TestSpec>)
    ensures
        views(r@) == tcp_run_tests(
            *rd, *pair, *suite, *task, *req, binding_id@, *set,
            views(runs@),
        ),
{
    broadcast use group_views;

    let directions = normalized_ui_directions(&task.directions);
    let ghost all = tcp_run_tests(
        *rd, *pair, *suite, *task, *req, binding_id@, *set,
        views(runs@),
    );
    let mut r: Vec<TestSpec> = Vec::new();
    let mut i: usize = 0;
    while i < runs.len()
        invariant
            i <= runs@.len(),
            texts(directions@) == directions_meant(texts(task.directions@)),
            all == tcp_run_tests(
                *rd, *pair, *suite, *task, *req, binding_id@, *set,
                views(runs@),
            ),
            views(r@) == all.take(i as int),
        decreases runs@.len() - i,
    {
        let run = &runs[i];
        let number = decimal_text_wide(run.streams as u128);
        let label = cat2("TCP -P ", number.as_str());
        let mut spec = task_spec(
            rd, pair, suite, task, req, binding_id, set,
            "tcp",
            &directions,
            label.as_str(),
            run.recipe_id.as_str(),
        );
        spec.tcp_streams = Some(run.streams);
        let windows = match &run.window {
            Some(window) => one_text(window.as_str()),
            None => Vec::new(),
        };
        assert(texts(windows@) =~= run_windows(run@.window));
        spec.tcp_windows = Some(windows);
        assert(views(runs@)[i as int] == run@);
        assert(spec@ == all[i as int]);
        r.push(spec);
        assert(all.take(i as int).push(all[i as int]) =~= all.take(i + 1));
        i += 1;
    }
    assert(all.take(i as int) =~= all);
    r
}

/// The runs of the first `n` recipes of a UDP task.
pub open spec fn udp_task_runs_to(
    recipes: Seq<UiRecipeView>,
    bandwidths: Seq<Seq<char>>,
    streams: u32,
    n: int,
) -> Seq<UiUdpProfileView>
    decreases n,
{
    if n <= 0 {
        Seq::empty()
    } else {
        udp_task_runs_to(recipes, bandwidths, streams, n - 1) + udp_runs(
            recipes[n - 1],
            bandwidths,
            streams,
        )
    }
}

/// The runs of a UDP task.
pub open spec fn udp_task_runs(
    recipes: UiRecipes,
    task: UiTask,
    req: RunRequest,
    cfg: ConfigView,
) -> Seq<UiUdpProfileView> {
    let chosen = task_recipes(
        recipes.udp@,
        texts(task.recipe_ids@),
        default_udp_recipe(req, cfg),
    );
    udp_task_runs_to(chosen, default_bandwidths(req, cfg), req.udp_streams, chosen.len() as int)
}

/// The runs of a UDP task.
pub fn runs_of_udp_task(recipes: &UiRecipes, task: &UiTask, req: &RunRequest, cfg: &Config) -> (r:
    Vec<UiUdpProfile>)
    ensures
        views(r@) == udp_task_runs(*recipes, *task, *req, cfg@),
{
    broadcast use group_views;

    let bandwidths = pick_default_bandwidths(req, cfg);
    let mut fallback = new_recipe("default", "默认 UDP");
    fallback.bandwidths = copy_texts(&bandwidths);
    fallback.lengths = copy_texts(&req.udp_lengths);
    fallback.windows = copy_texts(&req.udp_windows);
    let mut one: Vec<u32> = Vec::new();
    one.push(or_one(req.udp_streams));
    assert(one@ =~= seq![at_least_one(req.udp_streams)]);
    fallback.udp_streams = one;
    if req.udp_bandwidths.len() == 0 && req.udp_lengths.len() == 0 && req.udp_windows.len() == 0 {
        fallback.udp_profiles = copy_udp_profiles(&cfg.iperf.udp_profiles);
    }
    assert(fallback@ == default_udp_recipe(*req, cfg@));
    let chosen = recipes_of_task(&recipes.udp, &task.recipe_ids, &fallback);
    let ghost all = views(chosen@);
    let mut r: Vec<UiUdpProfile> = Vec::new();
    let mut i: usize = 0;
    while i < chosen.len()
        invariant
            i <= chosen@.len(),
            all == views(chosen@),
            views(r@) == udp_task_runs_to(all, texts(bandwidths@), req.udp_streams, i as int),
        decreases chosen@.len() - i,
    {
        assert(all[i as int] == chosen@[i as int]@);
        let mut more = recipe_udp_profiles(chosen[i], &bandwidths, req.udp_streams);
        r.append(&mut more);
        i += 1;
    }
    r
}

/// Whether two runs differ at most in their bandwidth.
pub open spec fn same_shape(a: UiUdpProfileView, b: UiUdpProfileView) -> bool {
    a.profile.length == b.profile.length && a.profile.window == b.profile.window && a.streams
        == b.streams
}

/// Whether an earlier run differs from the `i`th at most in its bandwidth.
pub open spec fn shape_repeats(runs: Seq<UiUdpProfileView>, i: int) -> bool {
    exists|j: int| 0 <= j < i && same_shape(#[trigger] runs[j], runs[i])
}

/// Whether two optional texts are the same.
pub fn same_opt(a: &Option<String>, b: &Option<String>) -> (r: bool)
    ensures
        r == (opt_text(*a) == opt_text(*b)),
{
    match (a, b) {
        (Some(x), Some(y)) => same(x.as_str(), y.as_str()),
        (None, None) => true,
        _ => false,
    }
}

/// Whether an earlier run differs from the `i`th at most in its bandwidth.
pub fn does_shape_repeat(runs: &Vec<UiUdpProfile>, i: usize) -> (r: bool)
    requires
        i < runs@.len(),
    ensures
        r == shape_repeats(views(runs@), i as int),
{
    let mut j: usize = 0;
    while j < i
        invariant
            j <= i < runs@.len(),
            forall|k: int|
                0 <= k < j ==> !same_shape(#[trigger] views(runs@)[k], views(runs@)[i as int]),
        decreases i - j,
    {
        if same_opt(&runs[j].profile.length, &runs[i].profile.length) && same_opt(
            &runs[j].profile.window,
            &runs[i].profile.window,
        ) && runs[j].streams == runs[i].streams {
            assert(same_shape(views(runs@)[j as int], views(runs@)[i as int]));
            return true;
        }
        j += 1;
    }
    false
}

/// Whether the first policies fix the bandwidth of an endpoint.
pub open spec fn endpoint_pinned(req: RunRequest, endpoint: Seq<char>) -> bool {
    exists|i: int|
        0 <= i < req.nic_policies@.len() && (#[trigger] req.nic_policies@[i]).endpoint@ == endpoint
            && !blank(req.nic_policies@[i].udp_bandwidth@)
}

/// Whether a policy fixes the bandwidth of an endpoint.
pub fn is_endpoint_pinned(req: &RunRequest, endpoint: &str) -> (r: bool)
    ensures
        r == endpoint_pinned(*req, endpoint@),
{
    let mut i: usize = 0;
    while i < req.nic_policies.len()
        invariant
            i <= req.nic_policies@.len(),
            forall|k: int|
                0 <= k < i ==> !((#[trigger] req.nic_policies@[k]).endpoint@ == endpoint@ && !blank(
                    req.nic_policies@[k].udp_bandwidth@,
                )),
        decreases req.nic_policies@.len() - i,
    {
        if same(req.nic_policies[i].endpoint.as_str(), endpoint) && !is_blank(
            req.nic_policies[i].udp_bandwidth.as_str(),
        ) {
            return true;
        }
        i += 1;
    }
    false
}

/// The test of one UDP run on the directions whose bandwidth is fixed.
pub open spec fn udp_fixed_test(
    rd: Readings,
    pair: UiPairRef,
    suite: UiSuite,
    task: UiTask,
    req: RunRequest,
    binding_id: Seq<char>,
    set: UiLinkSet,
    directions: Seq<Seq<char>>,
    run: UiUdpProfileView,
) -> TestSpecView {
    let bandwidth = fixed_bandwidth(
        req.nic_policies@,
        pair.src@,
        pair.dst@,
        run.profile.bandwidth,
        0,
    );
    TestSpecView {
        udp_streams: Some(run.streams),
        udp_profiles: Some(seq![UdpProfileView { bandwidth, ..run.profile }]),
        ..task_test(
            rd, pair, suite, task, req, binding_id, set,
            "udp"@,
            directions,
            "UDP（按网口策略钉死）"@,
            run.recipe_id,
        )
    }
}

/// The test of one UDP run on the directions whose bandwidth is free.
pub open spec fn udp_free_test(
    rd: Readings,
    pair: UiPairRef,
    suite: UiSuite,
    task: UiTask,
    req: RunRequest,
    binding_id: Seq<char>,
    set: UiLinkSet,
    directions: Seq<Seq<char>>,
    run: UiUdpProfileView,
) -> TestSpecView {
    TestSpecView {
        udp_streams: Some(run.streams),
        udp_profiles: Some(seq![run.profile]),
        ..task_test(rd, pair, suite, task, req, binding_id, set, "udp"@, directions, "UDP"@, run.recipe_id)
    }
}

/// The tests of the `i`th UDP run: one for the directions whose bandwidth is fixed, unless an
/// earlier run differs in nothing but the bandwidth, and one for the others.
pub open spec fn udp_run_tests(
    rd: Readings,
    pair: UiPairRef,
    suite: UiSuite,
    task: UiTask,
    req: RunRequest,
    binding_id: Seq<char>,
    set: UiLinkSet,
    runs: Seq<UiUdpProfileView>,
    i: int,
) -> Seq<TestSpecView> {
    let src_pinned = endpoint_pinned(req, pair.src@);
    let dst_pinned = endpoint_pinned(req, pair.dst@);
    let dirs = directions_meant(texts(task.directions@));
    let pinned = directions_where(dirs, src_pinned, dst_pinned, true);
    let swept = directions_where(dirs, src_pinned, dst_pinned, false);
    (if pinned.len() > 0 && !shape_repeats(runs, i) {
        seq![udp_fixed_test(rd, pair, suite, task, req, binding_id, set, pinned, runs[i])]
    } else {
        Seq::empty()
    }) + (if swept.len() > 0 {
        seq![udp_free_test(rd, pair, suite, task, req, binding_id, set, swept, runs[i])]
    } else {
        Seq::empty()
    })
}

/// The tests of the first `n` UDP runs.
pub open spec fn udp_run_tests_to(
    rd: Readings,
    pair: UiPairRef,
    suite: UiSuite,
    task: UiTask,
    req: RunRequest,
    binding_id: Seq<char>,
    set: UiLinkSet,
    runs: Seq<UiUdpProfileView>,
    n: int,
) -> Seq<TestSpecView>
    decreases n,
{
    if n <= 0 {
        Seq::empty()
    } else {
        udp_run_tests_to(rd, pair, suite, task, req, binding_id, set, runs, n - 1) + udp_run_tests(
            rd, pair, suite, task, req, binding_id, set,
            runs,
            n - 1,
        )
    }
}

/// A list of one load.
pub fn one_load(profile: UdpProfile) -> (r: Vec<UdpProfile>)
    ensures
        views(r@) == seq![profile@],
{
    let mut r: Vec<UdpProfile> = Vec::new();
    let ghost load = profile@;
    r.push(profile);
    assert(views(r@) =~= seq![load]);
    r
}

/// The tests of a UDP task.
pub fn udp_specs_for_task(
    rd: &Readings,
    pair: &UiPairRef,
    suite: &UiSuite,
    task: &UiTask,
    req: &RunRequest,
    binding_id: &str,
    set: &UiLinkSet,
    runs: &Vec<UiUdpProfile>,
) -> (r: Vec<TestSpec>)
    ensures
        views(r@) == udp_run_tests_to(
            *rd, *pair, *suite, *task, *req, binding_id@, *set,
            views(runs@),
            runs@.len() as int,
        ),
{
    broadcast use group_views;

    let directions = normalized_ui_directions(&task.directions);
    let src_pinned = is_endpoint_pinned(req, pair.src.as_str());
    let dst_pinned = is_endpoint_pinned(req, pair.dst.as_str());
    let pinned = part_of_directions(&directions, src_pinned, dst_pinned, true);
    let swept = part_of_directions(&directions, src_pinned, dst_pinned, false);
    let ghost dirs = directions_meant(texts(task.directions@));
    assert(texts(pinned@).len() == pinned@.len());
    assert(texts(swept@).len() == swept@.len());
    let mut r: Vec<TestSpec> = Vec::new();
    let mut i: usize = 0;
    while i < runs.len()
        invariant
            i <= runs@.len(),
            src_pinned == endpoint_pinned(*req, pair.src@),
            dst_pinned == endpoint_pinned(*req, pair.dst@),
            dirs == directions_meant(texts(task.directions@)),
            texts(pinned@) == directions_where(dirs, src_pinned, dst_pinned, true),
            texts(swept@) == directions_where(dirs, src_pinned, dst_pinned, false),
            texts(pinned@).len() == pinned@.len(),
            texts(swept@).len() == swept@.len(),
            views(r@) == udp_run_tests_to(
                *rd, *pair, *suite, *task, *req, binding_id@, *set,
                views(runs@),
                i as int,
            ),
        decreases runs@.len() - i,
    {
        let run = &runs[i];
        assert(views(runs@)[i as int] == run@);
        let ghost before = views(r@);
        if pinned.len() > 0 && !does_shape_repeat(runs, i) {
            let mut spec = task_spec(
                rd, pair, suite, task, req, binding_id, set,
                "udp",
                &pinned,
                "UDP（按网口策略钉死）",
                run.recipe_id.as_str(),
            );
            let mut profile = run.profile.clone();
            profile.bandwidth = find_fixed_bandwidth(
                &req.nic_policies,
                pair.src.as_str(),
                pair.dst.as_str(),
                run.profile.bandwidth.as_str(),
            );
            spec.udp_streams = Some(run.streams);
            spec.udp_profiles = Some(one_load(profile));
            assert(spec@ == udp_fixed_test(
                *rd, *pair, *suite, *task, *req, binding_id@, *set,
                texts(pinned@),
                run@,
            ));
            r.push(spec);
        }
        if swept.len() > 0 {
            let mut spec = task_spec(
                rd, pair, suite, task, req, binding_id, set,
                "udp",
                &swept,
                "UDP",
                run.recipe_id.as_str(),
            );
            spec.udp_streams = Some(run.streams);
            spec.udp_profiles = Some(one_load(run.profile.clone()));
            assert(spec@ == udp_free_test(
                *rd, *pair, *suite, *task, *req, binding_id@, *set,
                texts(swept@),
                run@,
            ));
            r.push(spec);
        }
        assert(views(r@) =~= before + udp_run_tests(
            *rd, *pair, *suite, *task, *req, binding_id@, *set,
            views(runs@),
            i as int,
        ));
        i += 1;
    }
    r
}

/// The recipes that a ping task names; its tests read nothing else of them.
pub open spec fn ping_recipe_ids(task: UiTask) -> Seq<Seq<char>> {
    if task.recipe_ids@.len() == 0 {
        seq!["default"@]
    } else {
        texts(task.recipe_ids@)
    }
}

/// The tests of a ping task.
pub open spec fn ping_tests(
    rd: Readings,
    pair: UiPairRef,
    suite: UiSuite,
    task: UiTask,
    req: RunRequest,
    binding_id: Seq<char>,
    set: UiLinkSet,
) -> Seq<TestSpecView> {
    let ids = ping_recipe_ids(task);
    Seq::new(
        ids.len(),
        |i: int|
            task_test(
                rd, pair, suite, task, req, binding_id, set,
                "ping"@,
                directions_meant(texts(task.directions@)),
                "PING"@,
                ids[i],
            ),
    )
}

/// The tests of a ping task.
pub fn ping_specs_for_task(
    rd: &Readings,
    pair: &UiPairRef,
    suite: &UiSuite,
    task: &UiTask,
    req: &RunRequest,
    binding_id: &str,
    set: &UiLinkSet,
) -> (r: Vec<TestSpec>)
    ensures
        views(r@) == ping_tests(*rd, *pair, *suite, *task, *req, binding_id@, *set),
{
    broadcast use group_views;

    let ids = if task.recipe_ids.len() == 0 {
        one_text("default")
    } else {
        copy_texts(&task.recipe_ids)
    };
    let directions = normalized_ui_directions(&task.directions);
    let ghost all = ping_tests(*rd, *pair, *suite, *task, *req, binding_id@, *set);
    let mut r: Vec<TestSpec> = Vec::new();
    let mut i: usize = 0;
    assert(texts(ids@).len() == ids@.len());
    while i < ids.len()
        invariant
            i <= ids@.len(),
            texts(ids@) == ping_recipe_ids(*task),
            texts(ids@).len() == ids@.len(),
            texts(directions@) == directions_meant(texts(task.directions@)),
            all == ping_tests(*rd, *pair, *suite, *task, *req, binding_id@, *set),
            views(r@) == all.take(i as int),
        decreases ids@.len() - i,
    {
        assert(texts(ids@)[i as int] == ids@[i as int]@);
        let spec = task_spec(
            rd, pair, suite, task, req, binding_id, set,
            "ping",
            &directions,
            "PING",
            ids[i].as_str(),
        );
        assert(spec@ == all[i as int]);
        r.push(spec);
        assert(all.take(i as int).push(all[i as int]) =~= all.take(i + 1));
        i += 1;
    }
    assert(all.take(i as int) =~= all);
    r
}

/// The tests of a task on a pair; none where its protocol cannot be read.
pub open spec fn task_tests(
    rd: Readings,
    pair: UiPairRef,
    suite: UiSuite,
    task: UiTask,
    req: RunRequest,
    binding_id: Seq<char>,
    set: UiLinkSet,
    recipes: UiRecipes,
    cfg: ConfigView,
) -> Seq<TestSpecView> {
    match task_protocol(task) {
        None => Seq::empty(),
        Some(protocol) => if protocol == "tcp"@ {
            tcp_run_tests(
                rd, pair, suite, task, req, binding_id, set,
                tcp_task_runs(recipes, task, req, cfg),
            )
        } else if protocol == "udp"@ {
            let runs = udp_task_runs(recipes, task, req, cfg);
            udp_run_tests_to(rd, pair, suite, task, req, binding_id, set, runs, runs.len() as int)
        } else {
            ping_tests(rd, pair, suite, task, req, binding_id, set)
        },
    }
}

/// The tests of a task on a pair.
pub fn ui_specs_for_task(
    rd: &Readings,
    pair: &UiPairRef,
    suite: &UiSuite,
    task: &UiTask,
    req: &RunRequest,
    binding_id: &str,
    set: &UiLinkSet,
    recipes: &UiRecipes,
    cfg: &Config,
) -> (r: Vec<TestSpec>)
    ensures
        views(r@) == task_tests(
            *rd, *pair, *suite, *task, *req, binding_id@, *set,
            *recipes,
            cfg@,
        ),
{
    broadcast use group_views;

    let protocol = match ui_task_protocol(task) {
        Some(protocol) => protocol,
        None => {
            return Vec::new();
        },
    };
    if same(protocol.as_str(), "tcp") {
        let runs = runs_of_tcp_task(recipes, task, req, cfg);
        tcp_specs_for_task(rd, pair, suite, task, req, binding_id, set, &runs)
    } else if same(protocol.as_str(), "udp") {
        let runs = runs_of_udp_task(recipes, task, req, cfg);
        assert(views(runs@).len() == runs@.len());
        udp_specs_for_task(rd, pair, suite, task, req, binding_id, set, &runs)
    } else {
        ping_specs_for_task(rd, pair, suite, task, req, binding_id, set)
    }
}

} // verus!
