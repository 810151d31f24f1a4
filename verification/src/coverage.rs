//! An accepted suite plan leaves nothing out: every task runs on every pair that it is bound to.
use vstd::prelude::*;
use vstd::string::*;
use crate::config::{ConfigView, TestSpecView, UdpProfileView};
use crate::laws::lemma_set_index;
use crate::model::{
    RunRequest, UiBinding, UiLinkSet, UiPairRef, UiPlan, UiRecipe, UiRecipeProfileView,
    UiRecipeView, UiRecipes, UiState, UiSuite, UiTask,
};
use crate::plan::{all_with_wifi_targets, direction_pinned, directions_where};
use crate::readings::Readings;
use crate::round_trip::rows::lemma_directions_where;
use crate::suite::{
    axis_runs_to, default_bandwidths, default_udp_recipe, directions_meant, directions_meant_to,
    length_runs_to, opt_trimmed, own_streams, ping_recipe_ids, plain_runs_to,
    profile_bandwidth_runs_to, profile_bandwidths, recipe_index, referred_to, task_recipes,
    task_tests, tcp_axis, tcp_axis_runs_to, tcp_profile_runs_to, tcp_runs, tcp_task_runs,
    tcp_task_runs_to, tidy_profile, udp_profile_runs_to, udp_run_row, udp_run_tests,
    udp_run_tests_to, udp_runs, udp_task_runs, udp_task_runs_to, window_runs_to, UiUdpProfileView,
};
use crate::suite_plan::{
    binding_tests, bound_pairs, bound_tests_to, lemma_place_of, lemma_run_order_sorts,
    lemma_task_order_is_complete, pair_task_tests_to, place_of, places_to, plan_tests_to,
    request_config, run_order, suite_base_config, task_order,
};
use crate::sweep::{choices, cleaned_or, nonzero_to, steps_or};
use crate::text::{blank, texts};
use crate::validate::{cleaned, cleaned_to, streams_fit, MAX_UDP_STREAMS};
use crate::validate_plan::{
    any_filled, binding_told, bindings_told, bound_pairs_told, configured, direction_of,
    directions_read, filled, gives_bandwidth, pair_ids, plan_told, profile_streams, recipe_ids,
    recipes_told, request_told, set_index, suite_ids, suite_index, suites_told, task_ids,
    task_protocol, task_told, tasks_told, udp_profiles_told, udp_recipe_told,
};

verus! {

/// Whether a test is one of a task on a pair of a binding.
pub open spec fn is_test_of(
    t: TestSpecView,
    binding: UiBinding,
    set: UiLinkSet,
    pair: UiPairRef,
    suite: UiSuite,
    task: UiTask,
) -> bool {
    &&& t.src == pair.src@
    &&& t.dst == pair.dst@
    &&& t.origin matches Some(origin) && origin.binding_id == binding.id@ && origin.link_set_id
        == set.id@ && origin.pair_id == pair.id@ && origin.suite_id == suite.id@
        && origin.task_id == task.id@
}

/// Whether tests that refer to no load have one to run with.
pub open spec fn udp_defaults_given(req: RunRequest, cfg: ConfigView) -> bool {
    cleaned(default_bandwidths(req, cfg)).len() > 0
}

// ---------------------------------------------------------------------------
// Runs
// ---------------------------------------------------------------------------

proof fn lemma_cleaned_filled(raw: Seq<Seq<char>>, n: int, k: int)
    requires
        0 <= k < n <= raw.len(),
        !blank(raw[k]),
    ensures
        cleaned_to(raw, n).len() > 0,
    decreases n,
{
    if k < n - 1 {
        lemma_cleaned_filled(raw, n - 1, k);
    }
}

proof fn lemma_any_filled(list: Seq<String>)
    requires
        any_filled(list),
    ensures
        cleaned(texts(list)).len() > 0,
{
    let k = choose|k: int| 0 <= k < list.len() && !blank((#[trigger] list[k])@);
    lemma_cleaned_filled(texts(list), list.len() as int, k);
}

/// A TCP recipe always comes to runs.
proof fn lemma_tcp_recipe_runs(recipe: UiRecipeView, fallback: Seq<u32>)
    ensures
        tcp_runs(recipe, fallback).len() > 0,
{
    if recipe.profiles.len() > 0 {
        let n = recipe.profiles.len() as int;
        let before = tcp_profile_runs_to(recipe, fallback, n - 1);
        assert(tcp_profile_runs_to(recipe, fallback, n).len() > before.len());
    } else {
        let axis = tcp_axis(recipe);
        let n = axis.len() as int;
        assert(n > 0);
        let streams = steps_or(recipe.tcp_streams, crate::suite::first_step(fallback));
        assert(streams.len() > 0);
        let before = tcp_axis_runs_to(recipe.id, axis, streams, n - 1);
        assert(tcp_axis_runs_to(recipe.id, axis, streams, n).len() > before.len());
    }
}

/// Whether a UDP recipe says nothing, or gives a bandwidth.
spec fn can_run(recipe: UiRecipe) -> bool {
    configured(recipe) ==> gives_bandwidth(recipe)
}

proof fn lemma_profile_runs_grow(recipe: UiRecipeView, fallback: u32, n: int, k: int)
    requires
        0 <= k < n <= recipe.profiles.len(),
        profile_bandwidths(recipe, recipe.profiles[k]).len() > 0,
    ensures
        udp_profile_runs_to(recipe, fallback, n).len() > 0,
    decreases n,
{
    if k < n - 1 {
        lemma_profile_runs_grow(recipe, fallback, n - 1, k);
    } else {
        let profile = recipe.profiles[k];
        let bandwidths = profile_bandwidths(recipe, profile);
        let streams = steps_or(
            crate::suite::own_streams(profile.udp_streams, profile.streams),
            fallback,
        );
        let m = bandwidths.len() as int;
        let before = profile_bandwidth_runs_to(recipe.id, profile, bandwidths, streams, m - 1);
        assert(profile_bandwidth_runs_to(recipe.id, profile, bandwidths, streams, m).len()
            > before.len());
    }
}

proof fn lemma_axes_run(
    id: Seq<char>,
    bandwidths: Seq<Seq<char>>,
    lengths: Seq<Option<Seq<char>>>,
    windows: Seq<Option<Seq<char>>>,
    streams: Seq<u32>,
)
    requires
        bandwidths.len() > 0,
        lengths.len() > 0,
        windows.len() > 0,
        streams.len() > 0,
    ensures
        axis_runs_to(id, bandwidths, lengths, windows, streams, bandwidths.len() as int).len() > 0,
{
    let bandwidth = bandwidths.last();
    let length = lengths.last();
    let n = bandwidths.len() as int;
    let m = lengths.len() as int;
    let k = windows.len() as int;
    let a = window_runs_to(id, bandwidth, length, windows, streams, k - 1);
    assert(window_runs_to(id, bandwidth, length, windows, streams, k).len() > a.len());
    let b = length_runs_to(id, bandwidth, lengths, windows, streams, m - 1);
    assert(length_runs_to(id, bandwidth, lengths, windows, streams, m).len() > b.len());
    let c = axis_runs_to(id, bandwidths, lengths, windows, streams, n - 1);
    assert(axis_runs_to(id, bandwidths, lengths, windows, streams, n).len() > c.len());
}

/// A UDP recipe of an accepted plan comes to runs where it says something or there is a load to fall
/// back on.
proof fn lemma_udp_recipe_runs(recipe: UiRecipe, bandwidths: Seq<Seq<char>>, streams: u32)
    requires
        can_run(recipe),
        configured(recipe) || cleaned(bandwidths).len() > 0,
    ensures
        udp_runs(recipe@, bandwidths, streams).len() > 0,
{
    let r = recipe@;
    let own = steps_or(r.udp_streams, streams);
    if r.udp_profiles.len() > 0 {
        let n = r.udp_profiles.len() as int;
        let before = plain_runs_to(r, own, n - 1);
        assert(plain_runs_to(r, own, n).len() > before.len());
    } else if r.profiles.len() > 0 {
        assert(gives_bandwidth(recipe));
        let n = r.profiles.len() as int;
        if any_filled(recipe.bandwidths@) {
            lemma_any_filled(recipe.bandwidths@);
            assert(r.bandwidths == texts(recipe.bandwidths@));
            assert(profile_bandwidths(r, r.profiles[0]).len() > 0);
            lemma_profile_runs_grow(r, streams, n, 0);
        } else {
            let k = choose|k: int|
                0 <= k < recipe.profiles@.len() && filled(
                    (#[trigger] recipe.profiles@[k]).bandwidth,
                );
            assert(r.profiles[k] == recipe.profiles@[k]@);
            assert(profile_bandwidths(r, r.profiles[k]).len() > 0);
            lemma_profile_runs_grow(r, streams, n, k);
        }
    } else {
        if configured(recipe) {
            lemma_any_filled(recipe.bandwidths@);
            assert(r.bandwidths == texts(recipe.bandwidths@));
        }
        let all = cleaned_or(r.bandwidths, cleaned(bandwidths));
        lemma_axes_run(
            r.id,
            all,
            choices(cleaned(r.lengths)),
            choices(cleaned(r.windows)),
            own,
        );
    }
}

// ---------------------------------------------------------------------------
// Numbers of streams
// ---------------------------------------------------------------------------

/// Whether every run has between 1 and 32 streams.
pub open spec fn runs_fit(runs: Seq<UiUdpProfileView>) -> bool {
    forall|i: int| 0 <= i < runs.len() ==> 1 <= (#[trigger] runs[i]).streams <= MAX_UDP_STREAMS
}

proof fn lemma_runs_fit_together(a: Seq<UiUdpProfileView>, b: Seq<UiUdpProfileView>)
    requires
        runs_fit(a),
        runs_fit(b),
    ensures
        runs_fit(a + b),
{
    assert forall|i: int| 0 <= i < (a + b).len() implies 1 <= (#[trigger] (a + b)[i]).streams
        <= MAX_UDP_STREAMS by {
        if i < a.len() {
            assert((a + b)[i] == a[i]);
        } else {
            assert((a + b)[i] == b[i - a.len()]);
        }
    }
}

proof fn lemma_steps_fit(values: Seq<u32>, n: int)
    requires
        0 <= n <= values.len(),
        streams_fit(values),
    ensures
        streams_fit(nonzero_to(values, n)),
    decreases n,
{
    if n > 0 {
        lemma_steps_fit(values, n - 1);
        let before = nonzero_to(values, n - 1);
        let after = nonzero_to(values, n);
        assert forall|i: int| 0 <= i < after.len() implies 1 <= #[trigger] after[i] <= 32 by {
            if i < before.len() {
                assert(after[i] == before[i]);
            } else {
                assert(after[i] == values[n - 1]);
            }
        }
    }
}

/// Numbers of streams that are given, or the one to fall back on, fit.
proof fn lemma_steps_or_fit(values: Seq<u32>, fallback: u32)
    requires
        streams_fit(values),
        fallback <= MAX_UDP_STREAMS,
    ensures
        streams_fit(steps_or(values, fallback)),
        steps_or(values, fallback).len() > 0,
{
    lemma_steps_fit(values, values.len() as int);
}

proof fn lemma_row_fits(id: Seq<char>, profile: UdpProfileView, streams: Seq<u32>)
    requires
        streams_fit(streams),
    ensures
        runs_fit(udp_run_row(id, profile, streams)),
{
    let runs = udp_run_row(id, profile, streams);
    assert forall|i: int| 0 <= i < runs.len() implies 1 <= (#[trigger] runs[i]).streams
        <= MAX_UDP_STREAMS by {
        assert(runs[i].streams == streams[i]);
    }
}

proof fn lemma_plain_runs_fit(recipe: UiRecipeView, streams: Seq<u32>, n: int)
    requires
        streams_fit(streams),
    ensures
        runs_fit(plain_runs_to(recipe, streams, n)),
    decreases n,
{
    if n > 0 {
        lemma_plain_runs_fit(recipe, streams, n - 1);
        let load = tidy_profile(recipe.udp_profiles[n - 1]);
        lemma_row_fits(recipe.id, load, streams);
        lemma_runs_fit_together(
            plain_runs_to(recipe, streams, n - 1),
            udp_run_row(recipe.id, load, streams),
        );
    }
}

proof fn lemma_bandwidth_runs_fit(
    id: Seq<char>,
    profile: UiRecipeProfileView,
    bandwidths: Seq<Seq<char>>,
    streams: Seq<u32>,
    n: int,
)
    requires
        streams_fit(streams),
    ensures
        runs_fit(profile_bandwidth_runs_to(id, profile, bandwidths, streams, n)),
    decreases n,
{
    if n > 0 {
        lemma_bandwidth_runs_fit(id, profile, bandwidths, streams, n - 1);
        let load = UdpProfileView {
            bandwidth: bandwidths[n - 1],
            length: opt_trimmed(profile.length),
            window: opt_trimmed(profile.window),
        };
        lemma_row_fits(id, load, streams);
        lemma_runs_fit_together(
            profile_bandwidth_runs_to(id, profile, bandwidths, streams, n - 1),
            udp_run_row(id, load, streams),
        );
    }
}

proof fn lemma_profiles_streams(rd: Readings, recipe: UiRecipe, i: int, k: int)
    requires
        udp_profiles_told(rd, recipe, i) is Ok,
        0 <= i <= k < recipe.profiles@.len(),
    ensures
        streams_fit(
            profile_streams(recipe.profiles@[k].udp_streams, recipe.profiles@[k].streams),
        ),
    decreases k - i,
{
    if i < k {
        lemma_profiles_streams(rd, recipe, i + 1, k);
    }
}

proof fn lemma_profile_runs_fit(rd: Readings, recipe: UiRecipe, fallback: u32, n: int)
    requires
        udp_profiles_told(rd, recipe, 0) is Ok,
        fallback <= MAX_UDP_STREAMS,
        0 <= n <= recipe.profiles@.len(),
    ensures
        runs_fit(udp_profile_runs_to(recipe@, fallback, n)),
    decreases n,
{
    if n > 0 {
        lemma_profile_runs_fit(rd, recipe, fallback, n - 1);
        lemma_profiles_streams(rd, recipe, 0, n - 1);
        let own = recipe.profiles@[n - 1];
        let profile = recipe@.profiles[n - 1];
        assert(profile == own@);
        let given = own_streams(profile.udp_streams, profile.streams);
        assert(given == profile_streams(own.udp_streams, own.streams));
        lemma_steps_or_fit(given, fallback);
        let bandwidths = profile_bandwidths(recipe@, profile);
        let streams = steps_or(given, fallback);
        let count = bandwidths.len() as int;
        lemma_bandwidth_runs_fit(recipe@.id, profile, bandwidths, streams, count);
        lemma_runs_fit_together(
            udp_profile_runs_to(recipe@, fallback, n - 1),
            profile_bandwidth_runs_to(recipe@.id, profile, bandwidths, streams, count),
        );
    }
}

proof fn lemma_window_runs_fit(
    id: Seq<char>,
    bandwidth: Seq<char>,
    length: Option<Seq<char>>,
    windows: Seq<Option<Seq<char>>>,
    streams: Seq<u32>,
    n: int,
)
    requires
        streams_fit(streams),
    ensures
        runs_fit(window_runs_to(id, bandwidth, length, windows, streams, n)),
    decreases n,
{
    if n > 0 {
        lemma_window_runs_fit(id, bandwidth, length, windows, streams, n - 1);
        let load = UdpProfileView { bandwidth, length, window: windows[n - 1] };
        lemma_row_fits(id, load, streams);
        lemma_runs_fit_together(
            window_runs_to(id, bandwidth, length, windows, streams, n - 1),
            udp_run_row(id, load, streams),
        );
    }
}

proof fn lemma_length_runs_fit(
    id: Seq<char>,
    bandwidth: Seq<char>,
    lengths: Seq<Option<Seq<char>>>,
    windows: Seq<Option<Seq<char>>>,
    streams: Seq<u32>,
    n: int,
)
    requires
        streams_fit(streams),
    ensures
        runs_fit(length_runs_to(id, bandwidth, lengths, windows, streams, n)),
    decreases n,
{
    if n > 0 {
        lemma_length_runs_fit(id, bandwidth, lengths, windows, streams, n - 1);
        let count = windows.len() as int;
        lemma_window_runs_fit(id, bandwidth, lengths[n - 1], windows, streams, count);
        lemma_runs_fit_together(
            length_runs_to(id, bandwidth, lengths, windows, streams, n - 1),
            window_runs_to(id, bandwidth, lengths[n - 1], windows, streams, count),
        );
    }
}

proof fn lemma_axis_runs_fit(
    id: Seq<char>,
    bandwidths: Seq<Seq<char>>,
    lengths: Seq<Option<Seq<char>>>,
    windows: Seq<Option<Seq<char>>>,
    streams: Seq<u32>,
    n: int,
)
    requires
        streams_fit(streams),
    ensures
        runs_fit(axis_runs_to(id, bandwidths, lengths, windows, streams, n)),
    decreases n,
{
    if n > 0 {
        lemma_axis_runs_fit(id, bandwidths, lengths, windows, streams, n - 1);
        let count = lengths.len() as int;
        lemma_length_runs_fit(id, bandwidths[n - 1], lengths, windows, streams, count);
        lemma_runs_fit_together(
            axis_runs_to(id, bandwidths, lengths, windows, streams, n - 1),
            length_runs_to(id, bandwidths[n - 1], lengths, windows, streams, count),
        );
    }
}

/// A UDP recipe that says something and passes the checks comes to at least one run, whatever loads
/// there are to fall back on, and each of its runs has between 1 and 32 streams. The number to fall
/// back on is that of a request, which has at most 32.
pub proof fn lemma_accepted_recipe_runs(
    rd: Readings,
    recipe: UiRecipe,
    bandwidths: Seq<Seq<char>>,
    streams: u32,
)
    requires
        configured(recipe),
        udp_recipe_told(rd, recipe) is Ok,
        streams <= MAX_UDP_STREAMS,
    ensures
        udp_runs(recipe@, bandwidths, streams).len() > 0,
        runs_fit(udp_runs(recipe@, bandwidths, streams)),
{
    let r = recipe@;
    lemma_udp_recipe_runs(recipe, bandwidths, streams);
    lemma_steps_or_fit(r.udp_streams, streams);
    let own = steps_or(r.udp_streams, streams);
    if r.udp_profiles.len() > 0 {
        lemma_plain_runs_fit(r, own, r.udp_profiles.len() as int);
    } else if r.profiles.len() > 0 {
        lemma_profile_runs_fit(rd, recipe, streams, r.profiles.len() as int);
    } else {
        let all = cleaned_or(r.bandwidths, cleaned(bandwidths));
        lemma_axis_runs_fit(
            r.id,
            all,
            choices(cleaned(r.lengths)),
            choices(cleaned(r.windows)),
            own,
            all.len() as int,
        );
    }
}

// ---------------------------------------------------------------------------
// Runs of tasks
// ---------------------------------------------------------------------------

/// The recipe of tasks that refer to none comes to runs where there is a load.
proof fn lemma_default_udp_runs(req: RunRequest, cfg: ConfigView)
    requires
        udp_defaults_given(req, cfg),
    ensures
        udp_runs(default_udp_recipe(req, cfg), default_bandwidths(req, cfg), req.udp_streams).len()
            > 0,
{
    let r = default_udp_recipe(req, cfg);
    let own = steps_or(r.udp_streams, req.udp_streams);
    if r.udp_profiles.len() > 0 {
        let n = r.udp_profiles.len() as int;
        let before = plain_runs_to(r, own, n - 1);
        assert(plain_runs_to(r, own, n).len() > before.len());
    } else {
        lemma_axes_run(
            r.id,
            cleaned(r.bandwidths),
            choices(cleaned(r.lengths)),
            choices(cleaned(r.windows)),
            own,
        );
    }
}

proof fn lemma_recipe_index(recipes: Seq<UiRecipe>, id: Seq<char>, i: int)
    requires
        0 <= i <= recipes.len(),
    ensures
        i <= recipe_index(recipes, id, i) <= recipes.len(),
    decreases recipes.len() - i,
{
    if i < recipes.len() && recipes[i].id@ != id {
        lemma_recipe_index(recipes, id, i + 1);
    }
}

/// What a task refers to are recipes of the plan.
proof fn lemma_referred(recipes: Seq<UiRecipe>, ids: Seq<Seq<char>>, n: int)
    requires
        0 <= n <= ids.len(),
    ensures
        forall|k: int|
            0 <= k < referred_to(recipes, ids, n).len() ==> exists|at: int|
                0 <= at < recipes.len() && (#[trigger] recipes[at])@ == #[trigger] referred_to(
                    recipes,
                    ids,
                    n,
                )[k],
    decreases n,
{
    if n > 0 {
        lemma_referred(recipes, ids, n - 1);
        lemma_recipe_index(recipes, ids[n - 1], 0);
        let before = referred_to(recipes, ids, n - 1);
        let after = referred_to(recipes, ids, n);
        let last = recipe_index(recipes, ids[n - 1], 0);
        assert forall|k: int| 0 <= k < after.len() implies exists|at: int|
            0 <= at < recipes.len() && (#[trigger] recipes[at])@ == #[trigger] after[k] by {
            if k < before.len() {
                assert(after[k] == before[k]);
                let at = choose|at: int|
                    0 <= at < recipes.len() && (#[trigger] recipes[at])@ == before[k];
                assert(recipes[at]@ == after[k]);
            } else {
                assert(recipes[last]@ == after[k]);
            }
        }
    }
}

proof fn lemma_tcp_task_runs(recipes: UiRecipes, task: UiTask, req: RunRequest, cfg: ConfigView)
    ensures
        tcp_task_runs(recipes, task, req, cfg).len() > 0,
{
    let chosen = task_recipes(
        recipes.tcp@,
        texts(task.recipe_ids@),
        crate::suite::default_tcp_recipe(req, cfg),
    );
    let fallback = crate::sweep::nonzero(req.tcp_streams@);
    let n = chosen.len() as int;
    assert(n > 0);
    lemma_tcp_recipe_runs(chosen[n - 1], fallback);
    let before = tcp_task_runs_to(chosen, fallback, n - 1);
    assert(tcp_task_runs_to(chosen, fallback, n).len() > before.len());
}

proof fn lemma_udp_task_runs(recipes: UiRecipes, task: UiTask, req: RunRequest, cfg: ConfigView)
    requires
        forall|i: int| 0 <= i < recipes.udp@.len() ==> can_run(#[trigger] recipes.udp@[i]),
        udp_defaults_given(req, cfg),
    ensures
        udp_task_runs(recipes, task, req, cfg).len() > 0,
{
    let ids = texts(task.recipe_ids@);
    let referred = referred_to(recipes.udp@, ids, ids.len() as int);
    let chosen = task_recipes(recipes.udp@, ids, default_udp_recipe(req, cfg));
    let bandwidths = default_bandwidths(req, cfg);
    let n = chosen.len() as int;
    if referred.len() == 0 {
        lemma_default_udp_runs(req, cfg);
        assert(chosen[0] == default_udp_recipe(req, cfg));
    } else {
        lemma_referred(recipes.udp@, ids, ids.len() as int);
        let at = choose|at: int|
            0 <= at < recipes.udp@.len() && (#[trigger] recipes.udp@[at])@ == referred[n - 1];
        lemma_udp_recipe_runs(recipes.udp@[at], bandwidths, req.udp_streams);
    }
    let before = udp_task_runs_to(chosen, bandwidths, req.udp_streams, n - 1);
    assert(udp_task_runs_to(chosen, bandwidths, req.udp_streams, n).len() > before.len());
}

// ---------------------------------------------------------------------------
// Tests of a task
// ---------------------------------------------------------------------------

proof fn lemma_directions_meant(raw: Seq<Seq<char>>, n: int)
    requires
        0 < n <= raw.len(),
        direction_of(raw[n - 1]) is Some,
    ensures
        directions_meant_to(raw, n).len() > 0,
{
    let before = directions_meant_to(raw, n - 1);
    let direction = direction_of(raw[n - 1])->0;
    let one = crate::suite::with_text(before, "ab"@);
    assert(one.contains("ab"@)) by {
        if !before.contains("ab"@) {
            assert(one[before.len() as int] == "ab"@);
        }
    }
    assert(one.len() > 0);
    let other = crate::suite::with_text(before, direction);
    assert(other.contains(direction)) by {
        if !before.contains(direction) {
            assert(other[before.len() as int] == direction);
        }
    }
}

/// The first UDP run makes a test: its directions are fixed, or they are free.
proof fn lemma_first_run_makes_a_test(
    rd: Readings,
    pair: UiPairRef,
    suite: UiSuite,
    task: UiTask,
    req: RunRequest,
    binding: UiBinding,
    set: UiLinkSet,
    runs: Seq<UiUdpProfileView>,
    n: int,
)
    requires
        0 < n <= runs.len(),
        directions_meant(texts(task.directions@)).len() > 0,
    ensures
        ({
            let all = udp_run_tests_to(rd, pair, suite, task, req, binding.id@, set, runs, n);
            all.len() > 0 && is_test_of(all[0], binding, set, pair, suite, task)
        }),
    decreases n,
{
    let all = udp_run_tests_to(rd, pair, suite, task, req, binding.id@, set, runs, n);
    let before = udp_run_tests_to(rd, pair, suite, task, req, binding.id@, set, runs, n - 1);
    let more = udp_run_tests(rd, pair, suite, task, req, binding.id@, set, runs, n - 1);
    assert(all == before + more);
    if n > 1 {
        lemma_first_run_makes_a_test(rd, pair, suite, task, req, binding, set, runs, n - 1);
        assert(all[0] == before[0]);
    } else {
        let src_pinned = crate::suite::endpoint_pinned(req, pair.src@);
        let dst_pinned = crate::suite::endpoint_pinned(req, pair.dst@);
        let dirs = directions_meant(texts(task.directions@));
        let pinned = directions_where(dirs, src_pinned, dst_pinned, true);
        let swept = directions_where(dirs, src_pinned, dst_pinned, false);
        lemma_directions_where(dirs, src_pinned, dst_pinned, true, dirs.len() as int);
        lemma_directions_where(dirs, src_pinned, dst_pinned, false, dirs.len() as int);
        assert(dirs.take(dirs.len() as int) =~= dirs);
        assert(dirs.contains(dirs[0]));
        if direction_pinned(dirs[0], src_pinned, dst_pinned) {
            assert(pinned.contains(dirs[0]));
        } else {
            assert(swept.contains(dirs[0]));
        }
        assert(!crate::suite::shape_repeats(runs, 0));
        assert(all =~= more);
        assert(is_test_of(more[0], binding, set, pair, suite, task));
    }
}

/// Every task of an accepted plan makes tests on a pair.
proof fn lemma_task_makes_tests(
    rd: Readings,
    pair: UiPairRef,
    suite: UiSuite,
    task: UiTask,
    req: RunRequest,
    binding: UiBinding,
    set: UiLinkSet,
    recipes: UiRecipes,
    cfg: ConfigView,
)
    requires
        task_protocol(task) is Some,
        directions_read(task.directions@),
        forall|i: int| 0 <= i < recipes.udp@.len() ==> can_run(#[trigger] recipes.udp@[i]),
        task_protocol(task) == Some("udp"@) ==> udp_defaults_given(req, cfg),
    ensures
        ({
            let all = task_tests(rd, pair, suite, task, req, binding.id@, set, recipes, cfg);
            all.len() > 0 && is_test_of(all[0], binding, set, pair, suite, task)
        }),
{
    let dirs = texts(task.directions@);
    assert(dirs[dirs.len() - 1] == task.directions@[dirs.len() - 1]@);
    lemma_directions_meant(dirs, dirs.len() as int);
    if task_protocol(task) == Some("tcp"@) {
        lemma_tcp_task_runs(recipes, task, req, cfg);
    } else if task_protocol(task) == Some("udp"@) {
        lemma_udp_task_runs(recipes, task, req, cfg);
        let runs = udp_task_runs(recipes, task, req, cfg);
        lemma_first_run_makes_a_test(
            rd,
            pair,
            suite,
            task,
            req,
            binding,
            set,
            runs,
            runs.len() as int,
        );
    } else {
        assert(ping_recipe_ids(task).len() > 0);
    }
}

// ---------------------------------------------------------------------------
// Tests of a plan
// ---------------------------------------------------------------------------

/// What checking a plan establishes of its parts.
spec fn plan_sound(plan: UiPlan) -> bool {
    &&& forall|i: int| 0 <= i < plan.recipes.udp@.len() ==> can_run(#[trigger] plan.recipes.udp@[i])
    &&& forall|i: int| 0 <= i < plan.suites@.len() ==> suite_sound(#[trigger] plan.suites@[i])
}

/// What checking a suite establishes of it.
spec fn suite_sound(suite: UiSuite) -> bool {
    &&& task_ids(suite.tasks@).no_duplicates()
    &&& forall|k: int| 0 <= k < suite.tasks@.len() ==> task_sound(#[trigger] suite.tasks@[k])
}

/// What checking a task establishes of it.
spec fn task_sound(task: UiTask) -> bool {
    task_protocol(task) is Some && directions_read(task.directions@)
}

proof fn lemma_recipes_sound(
    rd: Readings,
    recipes: Seq<UiRecipe>,
    before: Seq<Seq<char>>,
    i: int,
    k: int,
)
    requires
        recipes_told(rd, "udp"@, recipes, before, i) is Ok,
        0 <= i <= k < recipes.len(),
    ensures
        can_run(recipes[k]),
    decreases k - i,
{
    if i < k {
        lemma_recipes_sound(rd, recipes, before, i + 1, k);
    } else {
        reveal_strlit("tcp");
        reveal_strlit("udp");
        assert("tcp"@[0] == 't' && "udp"@[0] == 'u');
        assert(udp_recipe_told(rd, recipes[k]) is Ok);
    }
}

proof fn lemma_tasks_sound(rd: Readings, plan: UiPlan, suite: UiSuite, i: int, k: int)
    requires
        tasks_told(rd, plan, suite, i) is Ok,
        0 <= i <= k < suite.tasks@.len(),
    ensures
        task_sound(suite.tasks@[k]),
        !task_ids(suite.tasks@).take(k).contains(suite.tasks@[k].id@),
    decreases k - i,
{
    if i < k {
        lemma_tasks_sound(rd, plan, suite, i + 1, k);
    } else {
        assert(task_told(rd, plan, suite, suite.tasks@[k]) is Ok);
    }
}

proof fn lemma_suites_told(rd: Readings, plan: UiPlan, i: int, k: int)
    requires
        suites_told(rd, plan, i) is Ok,
        0 <= i <= k < plan.suites@.len(),
    ensures
        tasks_told(rd, plan, plan.suites@[k], 0) is Ok,
    decreases k - i,
{
    if i < k {
        lemma_suites_told(rd, plan, i + 1, k);
    }
}

proof fn lemma_suite_sound(rd: Readings, plan: UiPlan, suite: UiSuite)
    requires
        tasks_told(rd, plan, suite, 0) is Ok,
    ensures
        suite_sound(suite),
{
    let ids = task_ids(suite.tasks@);
    assert forall|k: int| 0 <= k < suite.tasks@.len() implies task_sound(
        #[trigger] suite.tasks@[k],
    ) by {
        lemma_tasks_sound(rd, plan, suite, 0, k);
    }
    assert forall|a: int, b: int| 0 <= a < b < ids.len() implies ids[a] != ids[b] by {
        lemma_tasks_sound(rd, plan, suite, 0, b);
        assert(ids.take(b)[a] == ids[a]);
    }
}

proof fn lemma_plan_sound(state: UiState, rd: Readings, plan: UiPlan)
    requires
        plan_told(state, rd, plan) is Ok,
    ensures
        plan_sound(plan),
{
    let tcp = recipe_ids(plan.recipes.tcp@);
    assert(recipes_told(rd, "udp"@, plan.recipes.udp@, tcp, 0) is Ok);
    assert(suites_told(rd, plan, 0) is Ok);
    assert forall|i: int| 0 <= i < plan.recipes.udp@.len() implies can_run(
        #[trigger] plan.recipes.udp@[i],
    ) by {
        lemma_recipes_sound(rd, plan.recipes.udp@, tcp, 0, i);
    }
    assert forall|i: int| 0 <= i < plan.suites@.len() implies suite_sound(
        #[trigger] plan.suites@[i],
    ) by {
        lemma_suites_told(rd, plan, 0, i);
        lemma_suite_sound(rd, plan, plan.suites@[i]);
    }
}

/// Whether some test of a list is one of a task on a pair of a binding.
pub open spec fn covers(
    tests: Seq<TestSpecView>,
    binding: UiBinding,
    set: UiLinkSet,
    pair: UiPairRef,
    suite: UiSuite,
    task: UiTask,
) -> bool {
    exists|j: int|
        0 <= j < tests.len() && is_test_of(#[trigger] tests[j], binding, set, pair, suite, task)
}

proof fn lemma_covers_more(
    tests: Seq<TestSpecView>,
    more: Seq<TestSpecView>,
    binding: UiBinding,
    set: UiLinkSet,
    pair: UiPairRef,
    suite: UiSuite,
    task: UiTask,
)
    requires
        covers(tests, binding, set, pair, suite, task) || covers(
            more,
            binding,
            set,
            pair,
            suite,
            task,
        ),
    ensures
        covers(tests + more, binding, set, pair, suite, task),
{
    let all = tests + more;
    if covers(tests, binding, set, pair, suite, task) {
        let j = choose|j: int|
            0 <= j < tests.len() && is_test_of(#[trigger] tests[j], binding, set, pair, suite, task);
        assert(all[j] == tests[j]);
    } else {
        let j = choose|j: int|
            0 <= j < more.len() && is_test_of(#[trigger] more[j], binding, set, pair, suite, task);
        assert(all[tests.len() + j] == more[j]);
    }
}

proof fn lemma_pair_covers(
    rd: Readings,
    plan: UiPlan,
    req: RunRequest,
    cfg: ConfigView,
    binding: UiBinding,
    set: UiLinkSet,
    suite: UiSuite,
    pair: UiPairRef,
    n: int,
    at: int,
)
    requires
        0 <= at < n <= task_order(suite).len(),
        plan_sound(plan),
        0 <= task_order(suite)[at] < suite.tasks@.len(),
        task_sound(suite.tasks@[task_order(suite)[at] as int]),
        task_protocol(suite.tasks@[task_order(suite)[at] as int]) == Some("udp"@)
            ==> udp_defaults_given(req, cfg),
    ensures
        covers(
            pair_task_tests_to(rd, plan, req, cfg, binding, set, suite, pair, n),
            binding,
            set,
            pair,
            suite,
            suite.tasks@[task_order(suite)[at] as int],
        ),
    decreases n,
{
    let wanted = suite.tasks@[task_order(suite)[at] as int];
    let task = suite.tasks@[task_order(suite)[n - 1] as int];
    let before = pair_task_tests_to(rd, plan, req, cfg, binding, set, suite, pair, n - 1);
    let plain = task_tests(rd, pair, suite, task, req, binding.id@, set, plan.recipes, cfg);
    let more = all_with_wifi_targets(plain, rd, req, pair.src@, pair.dst@);
    if at < n - 1 {
        lemma_pair_covers(rd, plan, req, cfg, binding, set, suite, pair, n - 1, at);
    } else {
        lemma_task_makes_tests(rd, pair, suite, task, req, binding, set, plan.recipes, cfg);
        assert(more[0].src == plain[0].src && more[0].dst == plain[0].dst && more[0].origin
            == plain[0].origin);
        assert(is_test_of(more[0], binding, set, pair, suite, wanted));
    }
    lemma_covers_more(before, more, binding, set, pair, suite, wanted);
}

proof fn lemma_bound_covers(
    rd: Readings,
    plan: UiPlan,
    req: RunRequest,
    cfg: ConfigView,
    binding: UiBinding,
    set: UiLinkSet,
    suite: UiSuite,
    n: int,
    at: int,
    task: UiTask,
)
    requires
        0 <= at < n <= bound_pairs(binding, set).len(),
        covers(
            pair_task_tests_to(
                rd,
                plan,
                req,
                cfg,
                binding,
                set,
                suite,
                set.pair_refs@[bound_pairs(binding, set)[at] as int],
                task_order(suite).len() as int,
            ),
            binding,
            set,
            set.pair_refs@[bound_pairs(binding, set)[at] as int],
            suite,
            task,
        ),
    ensures
        covers(
            bound_tests_to(rd, plan, req, cfg, binding, set, suite, n),
            binding,
            set,
            set.pair_refs@[bound_pairs(binding, set)[at] as int],
            suite,
            task,
        ),
    decreases n,
{
    if at < n - 1 {
        lemma_bound_covers(rd, plan, req, cfg, binding, set, suite, n - 1, at, task);
    }
    let wanted = set.pair_refs@[bound_pairs(binding, set)[at] as int];
    let pair = set.pair_refs@[bound_pairs(binding, set)[n - 1] as int];
    let before = bound_tests_to(rd, plan, req, cfg, binding, set, suite, n - 1);
    let more = pair_task_tests_to(
        rd,
        plan,
        req,
        cfg,
        binding,
        set,
        suite,
        pair,
        task_order(suite).len() as int,
    );
    lemma_covers_more(before, more, binding, set, wanted, suite, task);
}

proof fn lemma_plan_covers(
    rd: Readings,
    plan: UiPlan,
    req: RunRequest,
    cfg: ConfigView,
    n: int,
    at: int,
    set: UiLinkSet,
    pair: UiPairRef,
    suite: UiSuite,
    task: UiTask,
)
    requires
        0 <= at < n <= run_order(plan.bindings@).len(),
        covers(
            binding_tests(
                rd,
                plan,
                req,
                cfg,
                plan.bindings@[run_order(plan.bindings@)[at] as int],
            ),
            plan.bindings@[run_order(plan.bindings@)[at] as int],
            set,
            pair,
            suite,
            task,
        ),
    ensures
        covers(
            plan_tests_to(rd, plan, req, cfg, n),
            plan.bindings@[run_order(plan.bindings@)[at] as int],
            set,
            pair,
            suite,
            task,
        ),
    decreases n,
{
    if at < n - 1 {
        lemma_plan_covers(rd, plan, req, cfg, n - 1, at, set, pair, suite, task);
    }
    let wanted = plan.bindings@[run_order(plan.bindings@)[at] as int];
    let binding = plan.bindings@[run_order(plan.bindings@)[n - 1] as int];
    lemma_covers_more(
        plan_tests_to(rd, plan, req, cfg, n - 1),
        binding_tests(rd, plan, req, cfg, binding),
        wanted,
        set,
        pair,
        suite,
        task,
    );
}

/// The link set that a binding names.
pub open spec fn set_of(plan: UiPlan, binding: UiBinding) -> UiLinkSet {
    plan.link_sets@[set_index(plan.link_sets@, binding.link_set_id@, 0)]
}

/// The suite that a binding names.
pub open spec fn suite_of(plan: UiPlan, binding: UiBinding) -> UiSuite {
    plan.suites@[suite_index(plan.suites@, binding.suite_id@, 0)]
}

proof fn lemma_bindings_told(plan: UiPlan, i: int, k: int)
    requires
        bindings_told(plan, i) is Ok,
        0 <= i <= k < plan.bindings@.len(),
    ensures
        binding_told(plan, plan.bindings@[k]) is Ok,
    decreases k - i,
{
    if i < k {
        lemma_bindings_told(plan, i + 1, k);
    }
}

proof fn lemma_suite_found(suites: Seq<UiSuite>, id: Seq<char>, i: int, k: int)
    requires
        0 <= i <= k < suites.len(),
        suites[k].id@ == id,
    ensures
        0 <= suite_index(suites, id, i) < suites.len(),
    decreases suites.len() - i,
{
    if suites[i].id@ != id {
        lemma_suite_found(suites, id, i + 1, k);
    }
}

/// What a binding of an accepted plan names is there.
proof fn lemma_binding_sound(plan: UiPlan, binding: UiBinding)
    requires
        binding_told(plan, binding) is Ok,
    ensures
        0 <= set_index(plan.link_sets@, binding.link_set_id@, 0) < plan.link_sets@.len(),
        0 <= suite_index(plan.suites@, binding.suite_id@, 0) < plan.suites@.len(),
        bound_pairs_told(binding, set_of(plan, binding), 0) is Ok,
        binding.pair_ids@.len() > 0 || set_of(plan, binding).pair_refs@.len() > 0,
{
    lemma_set_index(plan.link_sets@, binding.link_set_id@, 0);
    let ids = suite_ids(plan.suites@);
    let k = choose|k: int| 0 <= k < ids.len() && ids[k] == binding.suite_id@;
    assert(plan.suites@[k].id@ == binding.suite_id@);
    lemma_suite_found(plan.suites@, binding.suite_id@, 0, k);
}

proof fn lemma_plan_accepted(state: UiState, rd: Readings, req: RunRequest, plan: UiPlan)
    requires
        request_told(state, rd, req) is Ok,
        req.ui_plan == Some(plan),
    ensures
        plan_told(state, rd, plan) is Ok,
        bindings_told(plan, 0) is Ok,
        plan.bindings@.len() > 0,
        suites_told(rd, plan, 0) is Ok,
{
}

/// Every task of a suite runs on every pair that a binding of an accepted plan binds it to. A UDP task
/// needs a bandwidth to fall back on: the request or the configuration gives one.
pub proof fn lemma_every_task_runs(
    state: UiState,
    rd: Readings,
    req: RunRequest,
    plan: UiPlan,
    binding: UiBinding,
    p: usize,
    k: int,
)
    requires
        request_told(state, rd, req) is Ok,
        req.ui_plan == Some(plan),
        plan.bindings@.contains(binding),
        bound_pairs(binding, set_of(plan, binding)).contains(p),
        0 <= k < suite_of(plan, binding).tasks@.len(),
        task_protocol(suite_of(plan, binding).tasks@[k]) == Some("udp"@) ==> udp_defaults_given(
            req,
            suite_base_config(state, rd, req),
        ),
    ensures
        covers(
            request_config(state, rd, req).tests,
            binding,
            set_of(plan, binding),
            set_of(plan, binding).pair_refs@[p as int],
            suite_of(plan, binding),
            suite_of(plan, binding).tasks@[k],
        ),
{
    lemma_plan_accepted(state, rd, req, plan);
    lemma_plan_sound(state, rd, plan);
    let b = choose|b: int| 0 <= b < plan.bindings@.len() && plan.bindings@[b] == binding;
    lemma_bindings_told(plan, 0, b);
    lemma_binding_sound(plan, binding);
    lemma_task_covered(rd, req, plan, suite_base_config(state, rd, req), b, p, k);
}

proof fn lemma_task_covered(
    rd: Readings,
    req: RunRequest,
    plan: UiPlan,
    cfg: ConfigView,
    b: int,
    p: usize,
    k: int,
)
    requires
        plan_sound(plan),
        0 <= b < plan.bindings@.len(),
        0 <= set_index(plan.link_sets@, plan.bindings@[b].link_set_id@, 0) < plan.link_sets@.len(),
        0 <= suite_index(plan.suites@, plan.bindings@[b].suite_id@, 0) < plan.suites@.len(),
        bound_pairs(plan.bindings@[b], set_of(plan, plan.bindings@[b])).contains(p),
        0 <= k < suite_of(plan, plan.bindings@[b]).tasks@.len(),
        task_protocol(suite_of(plan, plan.bindings@[b]).tasks@[k]) == Some("udp"@)
            ==> udp_defaults_given(req, cfg),
    ensures
        covers(
            plan_tests_to(rd, plan, req, cfg, run_order(plan.bindings@).len() as int),
            plan.bindings@[b],
            set_of(plan, plan.bindings@[b]),
            set_of(plan, plan.bindings@[b]).pair_refs@[p as int],
            suite_of(plan, plan.bindings@[b]),
            suite_of(plan, plan.bindings@[b]).tasks@[k],
        ),
{
    let binding = plan.bindings@[b];
    let set = set_of(plan, binding);
    let suite = suite_of(plan, binding);
    let task = suite.tasks@[k];
    let pair = set.pair_refs@[p as int];
    assert(suite_sound(suite));
    assert(suite.tasks@.len() == suite.tasks.len());
    assert(plan.bindings@.len() == plan.bindings.len());
    lemma_task_order_is_complete(suite, k);
    let order = task_order(suite);
    let t = choose|t: int| 0 <= t < order.len() && order[t] == k as usize;
    assert(task_sound(task));
    lemma_pair_covers(rd, plan, req, cfg, binding, set, suite, pair, order.len() as int, t);
    let pairs = bound_pairs(binding, set);
    let q = choose|q: int| 0 <= q < pairs.len() && pairs[q] == p;
    lemma_bound_covers(
        rd,
        plan,
        req,
        cfg,
        binding,
        set,
        suite,
        pairs.len() as int,
        q,
        task,
    );
    lemma_run_order_sorts(plan.bindings@);
    let runs = run_order(plan.bindings@);
    let at = choose|at: int| 0 <= at < runs.len() && runs[at] == b as usize;
    lemma_plan_covers(
        rd,
        plan,
        req,
        cfg,
        runs.len() as int,
        at,
        set,
        pair,
        suite,
        task,
    );
}

proof fn lemma_place_found(list: Seq<Seq<char>>, wanted: Seq<Seq<char>>, n: int, i: int)
    requires
        0 <= i < n <= wanted.len(),
        list.contains(wanted[i]),
        list.len() <= usize::MAX,
    ensures
        exists|q: int|
            0 <= q < places_to(list, wanted, n).len() && (#[trigger] places_to(list, wanted, n)[q])
                < list.len() && list[places_to(list, wanted, n)[q] as int] == wanted[i],
    decreases n,
{
    let all = places_to(list, wanted, n);
    lemma_place_of(list, wanted[n - 1], 0);
    let at = place_of(list, wanted[n - 1], 0);
    if i < n - 1 {
        lemma_place_found(list, wanted, n - 1, i);
        let before = places_to(list, wanted, n - 1);
        let q = choose|q: int|
            0 <= q < before.len() && (#[trigger] before[q]) < list.len() && list[before[q] as int]
                == wanted[i];
        assert(all[q] == before[q]);
    } else {
        let k = choose|k: int| 0 <= k < list.len() && list[k] == wanted[i];
        assert(at < list.len());
        assert(all[all.len() - 1] == at as usize);
    }
}

proof fn lemma_bound_pairs_told(binding: UiBinding, set: UiLinkSet, i: int, k: int)
    requires
        bound_pairs_told(binding, set, i) is Ok,
        0 <= i <= k < binding.pair_ids@.len(),
    ensures
        pair_ids(set.pair_refs@).contains(binding.pair_ids@[k]@),
    decreases k - i,
{
    if i < k {
        lemma_bound_pairs_told(binding, set, i + 1, k);
    }
}

/// A binding of an accepted plan binds every pair that it names, and every pair of its link set where
/// it names none; either way it binds some.
pub proof fn lemma_bindings_bind(
    state: UiState,
    rd: Readings,
    req: RunRequest,
    plan: UiPlan,
    binding: UiBinding,
)
    requires
        request_told(state, rd, req) is Ok,
        req.ui_plan == Some(plan),
        plan.bindings@.contains(binding),
    ensures
        bound_pairs(binding, set_of(plan, binding)).len() > 0,
        binding.pair_ids@.len() == 0 ==> forall|p: int|
            0 <= p < set_of(plan, binding).pair_refs@.len() ==> bound_pairs(
                binding,
                set_of(plan, binding),
            ).contains(#[trigger] (p as usize)),
        forall|i: int|
            0 <= i < binding.pair_ids@.len() ==> exists|q: int|
                0 <= q < bound_pairs(binding, set_of(plan, binding)).len() && set_of(
                    plan,
                    binding,
                ).pair_refs@[#[trigger] bound_pairs(binding, set_of(plan, binding))[q] as int].id@
                    == (#[trigger] binding.pair_ids@[i])@,
{
    lemma_plan_accepted(state, rd, req, plan);
    let b = choose|b: int| 0 <= b < plan.bindings@.len() && plan.bindings@[b] == binding;
    lemma_bindings_told(plan, 0, b);
    lemma_binding_sound(plan, binding);
    lemma_pairs_bound(binding, set_of(plan, binding));
}

proof fn lemma_pairs_bound(binding: UiBinding, set: UiLinkSet)
    requires
        bound_pairs_told(binding, set, 0) is Ok,
        binding.pair_ids@.len() > 0 || set.pair_refs@.len() > 0,
    ensures
        bound_pairs(binding, set).len() > 0,
        binding.pair_ids@.len() == 0 ==> forall|p: int|
            0 <= p < set.pair_refs@.len() ==> bound_pairs(binding, set).contains(
                #[trigger] (p as usize),
            ),
        forall|i: int|
            0 <= i < binding.pair_ids@.len() ==> exists|q: int|
                0 <= q < bound_pairs(binding, set).len() && set.pair_refs@[#[trigger] bound_pairs(
                    binding,
                    set,
                )[q] as int].id@ == (#[trigger] binding.pair_ids@[i])@,
{
    let pairs = bound_pairs(binding, set);
    let ids = pair_ids(set.pair_refs@);
    let wanted = texts(binding.pair_ids@);
    assert(set.pair_refs@.len() == set.pair_refs.len());
    if binding.pair_ids@.len() == 0 {
        assert forall|p: int| 0 <= p < set.pair_refs@.len() implies pairs.contains(
            #[trigger] (p as usize),
        ) by {
            assert(pairs[p] == p as usize);
        }
    } else {
        assert forall|i: int| 0 <= i < binding.pair_ids@.len() implies exists|q: int|
            0 <= q < pairs.len() && set.pair_refs@[#[trigger] pairs[q] as int].id@ == (
            #[trigger] binding.pair_ids@[i])@ by {
            lemma_bound_pairs_told(binding, set, 0, i);
            assert(wanted[i] == binding.pair_ids@[i]@);
            lemma_place_found(ids, wanted, wanted.len() as int, i);
            let q = choose|q: int|
                0 <= q < pairs.len() && (#[trigger] pairs[q]) < ids.len() && ids[pairs[q] as int]
                    == wanted[i];
            assert(set.pair_refs@[pairs[q] as int].id@ == ids[pairs[q] as int]);
        }
        assert(binding.pair_ids@[0]@ == wanted[0]);
    }
}

/// An accepted suite plan always comes to tests, where there is a bandwidth to fall back on.
pub proof fn lemma_accepted_plan_has_tests(
    state: UiState,
    rd: Readings,
    req: RunRequest,
    plan: UiPlan,
)
    requires
        request_told(state, rd, req) is Ok,
        req.ui_plan == Some(plan),
        udp_defaults_given(req, suite_base_config(state, rd, req)),
    ensures
        request_config(state, rd, req).tests.len() > 0,
{
    lemma_plan_accepted(state, rd, req, plan);
    let binding = plan.bindings@[0];
    assert(plan.bindings@.contains(binding));
    lemma_bindings_told(plan, 0, 0);
    lemma_binding_sound(plan, binding);
    lemma_bindings_bind(state, rd, req, plan, binding);
    let at = suite_index(plan.suites@, binding.suite_id@, 0);
    lemma_suites_have_tasks(rd, plan, 0, at);
    let pairs = bound_pairs(binding, set_of(plan, binding));
    assert(pairs.contains(pairs[0]));
    lemma_every_task_runs(state, rd, req, plan, binding, pairs[0], 0);
}

proof fn lemma_suites_have_tasks(rd: Readings, plan: UiPlan, i: int, k: int)
    requires
        suites_told(rd, plan, i) is Ok,
        0 <= i <= k < plan.suites@.len(),
    ensures
        plan.suites@[k].tasks@.len() > 0,
    decreases k - i,
{
    if i < k {
        lemma_suites_have_tasks(rd, plan, i + 1, k);
    }
}

} // verus!
