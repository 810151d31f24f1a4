//! What the recipes of a task come to.
use vstd::prelude::*;
use vstd::string::*;
use crate::config::{ConfigView, UdpProfileView};
use crate::meaning::lists::{
    is_step, lemma_axis, lemma_cleaning_keeps_what_is_written, lemma_empty_list_gives_way,
    lemma_steps_are_as_given, lists_text, on_axis,
};
use crate::model::{RunRequest, UiRecipe, UiRecipeProfileView, UiRecipeView};
use crate::suite::{
    axis_runs_to, default_tcp_recipe, default_udp_recipe, length_runs_to, opt_trimmed, own_streams,
    plain_runs_to, profile_bandwidth_runs_to, profile_bandwidths, recipe_index, referred_to,
    task_recipes, tcp_axis_runs_to, tcp_profile_runs_to, tcp_row, tcp_runs, udp_profile_runs_to,
    udp_run_row, udp_runs, window_runs_to, UiTcpProfileView, UiUdpProfileView,
};
use crate::sweep::{choices, cleaned_or, nonzero, steps_or};
use crate::text::{blank, texts, trimmed};
use crate::validate::cleaned;

verus! {

/// What an optional text says: nothing where it is missing or blank.
pub open spec fn written(text: Option<Seq<char>>) -> Option<Seq<char>> {
    match text {
        Some(s) => if blank(s) {
            None
        } else {
            Some(trimmed(s))
        },
        None => None,
    }
}

/// A list that another list follows holds what either holds.
pub proof fn lemma_members_of_both<T>(a: Seq<T>, b: Seq<T>, x: T)
    ensures
        (a + b).contains(x) <==> a.contains(x) || b.contains(x),
{
    if a.contains(x) {
        let i = choose|i: int| 0 <= i < a.len() && a[i] == x;
        assert((a + b)[i] == x);
    }
    if b.contains(x) {
        let i = choose|i: int| 0 <= i < b.len() && b[i] == x;
        assert((a + b)[a.len() + i] == x);
    }
    if (a + b).contains(x) {
        let i = choose|i: int| 0 <= i < (a + b).len() && (a + b)[i] == x;
        if i < a.len() {
            assert(a[i] == x);
        } else {
            assert(b[i - a.len()] == x);
        }
    }
}

// ---------------------------------------------------------------------------
// TCP
// ---------------------------------------------------------------------------

/// The number of streams to fall back on: the first of a list, else one.
pub open spec fn first_or_one(list: Seq<u32>) -> u32 {
    if list.len() == 0 {
        1
    } else {
        list[0]
    }
}

/// The streams of a profile: those of the protocol where it has them, else those for both.
pub open spec fn streams_for(own: Option<Seq<u32>>, both: Seq<u32>) -> Seq<u32> {
    if own is Some {
        own->0
    } else {
        both
    }
}

/// A profile of a recipe comes to a TCP run.
pub open spec fn profile_gives_tcp(
    profile: UiRecipeProfileView,
    fallback: Seq<u32>,
    window: Option<Seq<char>>,
    streams: u32,
) -> bool {
    &&& window == written(profile.window)
    &&& is_step(
        streams_for(profile.tcp_streams, profile.streams),
        first_or_one(fallback),
        streams,
    )
}

/// A recipe comes to a TCP run: by one of its profiles or, where it has none, by its windows and its
/// numbers of streams.
pub open spec fn is_tcp_run(
    recipe: UiRecipeView,
    fallback: Seq<u32>,
    run: UiTcpProfileView,
) -> bool {
    &&& run.recipe_id == recipe.id
    &&& if recipe.profiles.len() > 0 {
        exists|i: int|
            0 <= i < recipe.profiles.len() && profile_gives_tcp(
                #[trigger] recipe.profiles[i],
                fallback,
                run.window,
                run.streams,
            )
    } else {
        &&& on_axis(
            cleaned(
                if recipe.tcp_windows.len() > 0 {
                    recipe.tcp_windows
                } else {
                    recipe.windows
                },
            ),
            run.window,
        )
        &&& is_step(recipe.tcp_streams, first_or_one(fallback), run.streams)
    }
}

proof fn lemma_tcp_row(
    id: Seq<char>,
    window: Option<Seq<char>>,
    streams: Seq<u32>,
    run: UiTcpProfileView,
)
    ensures
        tcp_row(id, window, streams).contains(run) <==> run.recipe_id == id && run.window == window
            && streams.contains(run.streams),
{
    let row = tcp_row(id, window, streams);
    if row.contains(run) {
        let i = choose|i: int| 0 <= i < row.len() && row[i] == run;
        assert(streams[i] == run.streams);
    }
    if run.recipe_id == id && run.window == window && streams.contains(run.streams) {
        let i = choose|i: int| 0 <= i < streams.len() && streams[i] == run.streams;
        assert(row[i] == run);
    }
}

proof fn lemma_tcp_profile_runs(
    recipe: UiRecipeView,
    fallback: Seq<u32>,
    n: int,
    run: UiTcpProfileView,
)
    requires
        0 <= n <= recipe.profiles.len(),
    ensures
        tcp_profile_runs_to(recipe, fallback, n).contains(run) <==> run.recipe_id == recipe.id
            && exists|i: int|
            0 <= i < n && profile_gives_tcp(
                #[trigger] recipe.profiles[i],
                fallback,
                run.window,
                run.streams,
            ),
    decreases n,
{
    if n > 0 {
        lemma_tcp_profile_runs(recipe, fallback, n - 1, run);
        let profile = recipe.profiles[n - 1];
        let before = tcp_profile_runs_to(recipe, fallback, n - 1);
        let steps = steps_or(
            own_streams(profile.tcp_streams, profile.streams),
            crate::suite::first_step(fallback),
        );
        let more = tcp_row(recipe.id, opt_trimmed(profile.window), steps);
        lemma_members_of_both(before, more, run);
        lemma_tcp_row(recipe.id, opt_trimmed(profile.window), steps, run);
        lemma_steps_are_as_given(
            own_streams(profile.tcp_streams, profile.streams),
            crate::suite::first_step(fallback),
            run.streams,
        );
        assert(more.contains(run) <==> run.recipe_id == recipe.id && profile_gives_tcp(
            profile,
            fallback,
            run.window,
            run.streams,
        ));
    }
}

proof fn lemma_tcp_axis_runs(
    id: Seq<char>,
    windows: Seq<Option<Seq<char>>>,
    streams: Seq<u32>,
    n: int,
    run: UiTcpProfileView,
)
    requires
        0 <= n <= windows.len(),
    ensures
        tcp_axis_runs_to(id, windows, streams, n).contains(run) <==> run.recipe_id == id
            && streams.contains(run.streams) && exists|i: int|
            0 <= i < n && #[trigger] windows[i] == run.window,
    decreases n,
{
    if n > 0 {
        lemma_tcp_axis_runs(id, windows, streams, n - 1, run);
        lemma_members_of_both(
            tcp_axis_runs_to(id, windows, streams, n - 1),
            tcp_row(id, windows[n - 1], streams),
            run,
        );
        lemma_tcp_row(id, windows[n - 1], streams, run);
    }
}

/// A TCP recipe comes to exactly the runs that it describes.
pub proof fn lemma_tcp_recipe_is_run(
    recipe: UiRecipeView,
    fallback: Seq<u32>,
    run: UiTcpProfileView,
)
    ensures
        tcp_runs(recipe, fallback).contains(run) <==> is_tcp_run(recipe, fallback, run),
{
    if recipe.profiles.len() > 0 {
        lemma_tcp_profile_runs(recipe, fallback, recipe.profiles.len() as int, run);
    } else {
        let windows = cleaned(
            if recipe.tcp_windows.len() > 0 {
                recipe.tcp_windows
            } else {
                recipe.windows
            },
        );
        let axis = choices(windows);
        lemma_axis(windows, run.window);
        lemma_tcp_axis_runs(
            recipe.id,
            axis,
            steps_or(recipe.tcp_streams, crate::suite::first_step(fallback)),
            axis.len() as int,
            run,
        );
        lemma_steps_are_as_given(
            recipe.tcp_streams,
            crate::suite::first_step(fallback),
            run.streams,
        );
        assert(axis.contains(run.window) <==> exists|i: int|
            0 <= i < axis.len() && #[trigger] axis[i] == run.window);
    }
}

// ---------------------------------------------------------------------------
// UDP
// ---------------------------------------------------------------------------

/// A load has the bandwidth, and the length and the window that are written down.
pub open spec fn loads_as(
    load: UdpProfileView,
    bandwidth: Seq<char>,
    length: Option<Seq<char>>,
    window: Option<Seq<char>>,
) -> bool {
    load.bandwidth == bandwidth && load.length == written(length) && load.window == written(window)
}

/// A profile of a recipe comes to a load: with its own bandwidth where it has one, else with each of
/// the recipe's.
pub open spec fn profile_gives_udp(
    recipe: UiRecipeView,
    profile: UiRecipeProfileView,
    fallback: u32,
    load: UdpProfileView,
    streams: u32,
) -> bool {
    &&& loads_as(load, load.bandwidth, profile.length, profile.window)
    &&& match written(profile.bandwidth) {
        Some(own) => load.bandwidth == own,
        None => lists_text(recipe.bandwidths, load.bandwidth),
    }
    &&& is_step(streams_for(profile.udp_streams, profile.streams), fallback, streams)
}

/// A load of a recipe is run as it is written.
pub open spec fn load_gives_udp(written_load: UdpProfileView, load: UdpProfileView) -> bool {
    loads_as(load, trimmed(written_load.bandwidth), written_load.length, written_load.window)
}

/// A recipe comes to a UDP run: by one of its loads; where it has none, by one of its profiles; and
/// where it has none either, by its axes, the bandwidths of the request standing in for missing ones.
pub open spec fn is_udp_run(
    recipe: UiRecipeView,
    bandwidths: Seq<Seq<char>>,
    fallback: u32,
    run: UiUdpProfileView,
) -> bool {
    &&& run.recipe_id == recipe.id
    &&& if recipe.udp_profiles.len() > 0 {
        &&& is_step(recipe.udp_streams, fallback, run.streams)
        &&& exists|i: int|
            0 <= i < recipe.udp_profiles.len() && load_gives_udp(
                #[trigger] recipe.udp_profiles[i],
                run.profile,
            )
    } else if recipe.profiles.len() > 0 {
        exists|i: int|
            0 <= i < recipe.profiles.len() && profile_gives_udp(
                recipe,
                #[trigger] recipe.profiles[i],
                fallback,
                run.profile,
                run.streams,
            )
    } else {
        &&& is_step(recipe.udp_streams, fallback, run.streams)
        &&& if exists|x: Seq<char>| #[trigger] lists_text(recipe.bandwidths, x) {
            lists_text(recipe.bandwidths, run.profile.bandwidth)
        } else {
            lists_text(bandwidths, run.profile.bandwidth)
        }
        &&& on_axis(cleaned(recipe.lengths), run.profile.length)
        &&& on_axis(cleaned(recipe.windows), run.profile.window)
    }
}

proof fn lemma_udp_row(
    id: Seq<char>,
    profile: UdpProfileView,
    streams: Seq<u32>,
    run: UiUdpProfileView,
)
    ensures
        udp_run_row(id, profile, streams).contains(run) <==> run.recipe_id == id && run.profile
            == profile && streams.contains(run.streams),
{
    let row = udp_run_row(id, profile, streams);
    if row.contains(run) {
        let i = choose|i: int| 0 <= i < row.len() && row[i] == run;
        assert(streams[i] == run.streams);
    }
    if run.recipe_id == id && run.profile == profile && streams.contains(run.streams) {
        let i = choose|i: int| 0 <= i < streams.len() && streams[i] == run.streams;
        assert(row[i] == run);
    }
}

proof fn lemma_plain_runs(recipe: UiRecipeView, streams: Seq<u32>, n: int, run: UiUdpProfileView)
    requires
        0 <= n <= recipe.udp_profiles.len(),
    ensures
        plain_runs_to(recipe, streams, n).contains(run) <==> run.recipe_id == recipe.id
            && streams.contains(run.streams) && exists|i: int|
            0 <= i < n && load_gives_udp(#[trigger] recipe.udp_profiles[i], run.profile),
    decreases n,
{
    if n > 0 {
        lemma_plain_runs(recipe, streams, n - 1, run);
        let load = crate::suite::tidy_profile(recipe.udp_profiles[n - 1]);
        lemma_members_of_both(
            plain_runs_to(recipe, streams, n - 1),
            udp_run_row(recipe.id, load, streams),
            run,
        );
        lemma_udp_row(recipe.id, load, streams, run);
        assert(run.profile == load <==> load_gives_udp(recipe.udp_profiles[n - 1], run.profile));
    }
}

proof fn lemma_profile_bandwidth_runs(
    id: Seq<char>,
    profile: UiRecipeProfileView,
    bandwidths: Seq<Seq<char>>,
    streams: Seq<u32>,
    n: int,
    run: UiUdpProfileView,
)
    requires
        0 <= n <= bandwidths.len(),
    ensures
        profile_bandwidth_runs_to(id, profile, bandwidths, streams, n).contains(run)
            <==> run.recipe_id == id && streams.contains(run.streams) && loads_as(
            run.profile,
            run.profile.bandwidth,
            profile.length,
            profile.window,
        ) && exists|i: int| 0 <= i < n && #[trigger] bandwidths[i] == run.profile.bandwidth,
    decreases n,
{
    if n > 0 {
        lemma_profile_bandwidth_runs(id, profile, bandwidths, streams, n - 1, run);
        let load = UdpProfileView {
            bandwidth: bandwidths[n - 1],
            length: opt_trimmed(profile.length),
            window: opt_trimmed(profile.window),
        };
        lemma_members_of_both(
            profile_bandwidth_runs_to(id, profile, bandwidths, streams, n - 1),
            udp_run_row(id, load, streams),
            run,
        );
        lemma_udp_row(id, load, streams, run);
    }
}

proof fn lemma_udp_profile_runs(
    recipe: UiRecipeView,
    fallback: u32,
    n: int,
    run: UiUdpProfileView,
)
    requires
        0 <= n <= recipe.profiles.len(),
    ensures
        udp_profile_runs_to(recipe, fallback, n).contains(run) <==> run.recipe_id == recipe.id
            && exists|i: int|
            0 <= i < n && profile_gives_udp(
                recipe,
                #[trigger] recipe.profiles[i],
                fallback,
                run.profile,
                run.streams,
            ),
    decreases n,
{
    if n > 0 {
        lemma_udp_profile_runs(recipe, fallback, n - 1, run);
        let profile = recipe.profiles[n - 1];
        let bandwidths = profile_bandwidths(recipe, profile);
        let given = own_streams(profile.udp_streams, profile.streams);
        let streams = steps_or(given, fallback);
        let count = bandwidths.len() as int;
        let more = profile_bandwidth_runs_to(recipe.id, profile, bandwidths, streams, count);
        lemma_members_of_both(udp_profile_runs_to(recipe, fallback, n - 1), more, run);
        lemma_profile_bandwidth_runs(recipe.id, profile, bandwidths, streams, count, run);
        lemma_steps_are_as_given(given, fallback, run.streams);
        lemma_cleaning_keeps_what_is_written(recipe.bandwidths, run.profile.bandwidth);
        match written(profile.bandwidth) {
            Some(own) => {
                assert(bandwidths[0] == own);
            },
            None => {
                assert(bandwidths == cleaned(recipe.bandwidths));
            },
        }
        assert(more.contains(run) <==> run.recipe_id == recipe.id && profile_gives_udp(
            recipe,
            profile,
            fallback,
            run.profile,
            run.streams,
        ));
    }
}

proof fn lemma_window_runs(
    id: Seq<char>,
    bandwidth: Seq<char>,
    length: Option<Seq<char>>,
    windows: Seq<Option<Seq<char>>>,
    streams: Seq<u32>,
    n: int,
    run: UiUdpProfileView,
)
    requires
        0 <= n <= windows.len(),
    ensures
        window_runs_to(id, bandwidth, length, windows, streams, n).contains(run)
            <==> run.recipe_id == id && streams.contains(run.streams) && run.profile.bandwidth
            == bandwidth && run.profile.length == length && exists|i: int|
            0 <= i < n && #[trigger] windows[i] == run.profile.window,
    decreases n,
{
    if n > 0 {
        lemma_window_runs(id, bandwidth, length, windows, streams, n - 1, run);
        let load = UdpProfileView { bandwidth, length, window: windows[n - 1] };
        lemma_members_of_both(
            window_runs_to(id, bandwidth, length, windows, streams, n - 1),
            udp_run_row(id, load, streams),
            run,
        );
        lemma_udp_row(id, load, streams, run);
    }
}

proof fn lemma_length_runs(
    id: Seq<char>,
    bandwidth: Seq<char>,
    lengths: Seq<Option<Seq<char>>>,
    windows: Seq<Option<Seq<char>>>,
    streams: Seq<u32>,
    n: int,
    run: UiUdpProfileView,
)
    requires
        0 <= n <= lengths.len(),
    ensures
        length_runs_to(id, bandwidth, lengths, windows, streams, n).contains(run)
            <==> run.recipe_id == id && streams.contains(run.streams) && run.profile.bandwidth
            == bandwidth && windows.contains(run.profile.window) && exists|i: int|
            0 <= i < n && #[trigger] lengths[i] == run.profile.length,
    decreases n,
{
    if n > 0 {
        lemma_length_runs(id, bandwidth, lengths, windows, streams, n - 1, run);
        let count = windows.len() as int;
        lemma_members_of_both(
            length_runs_to(id, bandwidth, lengths, windows, streams, n - 1),
            window_runs_to(id, bandwidth, lengths[n - 1], windows, streams, count),
            run,
        );
        lemma_window_runs(id, bandwidth, lengths[n - 1], windows, streams, count, run);
        assert(windows.contains(run.profile.window) <==> exists|i: int|
            0 <= i < count && #[trigger] windows[i] == run.profile.window);
    }
}

proof fn lemma_axis_runs(
    id: Seq<char>,
    bandwidths: Seq<Seq<char>>,
    lengths: Seq<Option<Seq<char>>>,
    windows: Seq<Option<Seq<char>>>,
    streams: Seq<u32>,
    n: int,
    run: UiUdpProfileView,
)
    requires
        0 <= n <= bandwidths.len(),
    ensures
        axis_runs_to(id, bandwidths, lengths, windows, streams, n).contains(run)
            <==> run.recipe_id == id && streams.contains(run.streams) && lengths.contains(
            run.profile.length,
        ) && windows.contains(run.profile.window) && exists|i: int|
            0 <= i < n && #[trigger] bandwidths[i] == run.profile.bandwidth,
    decreases n,
{
    if n > 0 {
        lemma_axis_runs(id, bandwidths, lengths, windows, streams, n - 1, run);
        let count = lengths.len() as int;
        lemma_members_of_both(
            axis_runs_to(id, bandwidths, lengths, windows, streams, n - 1),
            length_runs_to(id, bandwidths[n - 1], lengths, windows, streams, count),
            run,
        );
        lemma_length_runs(id, bandwidths[n - 1], lengths, windows, streams, count, run);
        assert(lengths.contains(run.profile.length) <==> exists|i: int|
            0 <= i < count && #[trigger] lengths[i] == run.profile.length);
    }
}

/// A UDP recipe comes to exactly the runs that it describes.
pub proof fn lemma_udp_recipe_is_run(
    recipe: UiRecipeView,
    bandwidths: Seq<Seq<char>>,
    fallback: u32,
    run: UiUdpProfileView,
)
    ensures
        udp_runs(recipe, bandwidths, fallback).contains(run) <==> is_udp_run(
            recipe,
            bandwidths,
            fallback,
            run,
        ),
{
    let streams = steps_or(recipe.udp_streams, fallback);
    lemma_steps_are_as_given(recipe.udp_streams, fallback, run.streams);
    if recipe.udp_profiles.len() > 0 {
        lemma_plain_runs(recipe, streams, recipe.udp_profiles.len() as int, run);
    } else if recipe.profiles.len() > 0 {
        lemma_udp_profile_runs(recipe, fallback, recipe.profiles.len() as int, run);
    } else {
        let all = cleaned_or(recipe.bandwidths, cleaned(bandwidths));
        lemma_empty_list_gives_way(recipe.bandwidths, cleaned(bandwidths));
        lemma_cleaning_keeps_what_is_written(recipe.bandwidths, run.profile.bandwidth);
        lemma_cleaning_keeps_what_is_written(bandwidths, run.profile.bandwidth);
        lemma_axis(cleaned(recipe.lengths), run.profile.length);
        lemma_axis(cleaned(recipe.windows), run.profile.window);
        lemma_axis_runs(
            recipe.id,
            all,
            choices(cleaned(recipe.lengths)),
            choices(cleaned(recipe.windows)),
            streams,
            all.len() as int,
            run,
        );
        assert(all.contains(run.profile.bandwidth) <==> exists|i: int|
            0 <= i < all.len() && #[trigger] all[i] == run.profile.bandwidth);
        if exists|x: Seq<char>| #[trigger] lists_text(recipe.bandwidths, x) {
            assert(all == cleaned(recipe.bandwidths));
        } else {
            assert(all == cleaned(bandwidths));
        }
    }
}

// ---------------------------------------------------------------------------
// Which recipes
// ---------------------------------------------------------------------------

/// The recipe at `at` is the first of a name.
pub open spec fn is_recipe_named(recipes: Seq<UiRecipe>, id: Seq<char>, at: int) -> bool {
    &&& 0 <= at < recipes.len()
    &&& recipes[at].id@ == id
    &&& forall|i: int| 0 <= i < at ==> (#[trigger] recipes[i]).id@ != id
}

/// A task refers to the recipe at `at`.
pub open spec fn refers_to(recipes: Seq<UiRecipe>, ids: Seq<Seq<char>>, at: int) -> bool {
    exists|i: int| 0 <= i < ids.len() && is_recipe_named(recipes, #[trigger] ids[i], at)
}

proof fn lemma_recipe_index(recipes: Seq<UiRecipe>, id: Seq<char>, i: int)
    requires
        0 <= i <= recipes.len(),
        forall|j: int| 0 <= j < i ==> (#[trigger] recipes[j]).id@ != id,
    ensures
        recipe_index(recipes, id, i) < recipes.len() ==> is_recipe_named(
            recipes,
            id,
            recipe_index(recipes, id, i),
        ),
        forall|at: int| #[trigger]
            is_recipe_named(recipes, id, at) ==> at == recipe_index(recipes, id, i),
        0 <= recipe_index(recipes, id, i) <= recipes.len(),
    decreases recipes.len() - i,
{
    if i < recipes.len() && recipes[i].id@ != id {
        lemma_recipe_index(recipes, id, i + 1);
    }
}

proof fn lemma_referred(recipes: Seq<UiRecipe>, ids: Seq<Seq<char>>, n: int, recipe: UiRecipeView)
    requires
        0 <= n <= ids.len(),
    ensures
        referred_to(recipes, ids, n).contains(recipe) <==> exists|at: int|
            0 <= at < recipes.len() && (#[trigger] recipes[at])@ == recipe && refers_to(
                recipes,
                ids.take(n),
                at,
            ),
    decreases n,
{
    if n > 0 {
        lemma_referred(recipes, ids, n - 1, recipe);
        lemma_recipe_index(recipes, ids[n - 1], 0);
        let found = recipe_index(recipes, ids[n - 1], 0);
        let (before, after) = (referred_to(recipes, ids, n - 1), referred_to(recipes, ids, n));
        let (short, long) = (ids.take(n - 1), ids.take(n));
        assert forall|at: int| #[trigger]
            refers_to(recipes, long, at) <==> refers_to(recipes, short, at) || is_recipe_named(
                recipes,
                ids[n - 1],
                at,
            ) by {
            if refers_to(recipes, short, at) {
                let i = choose|i: int|
                    0 <= i < short.len() && is_recipe_named(recipes, #[trigger] short[i], at);
                assert(is_recipe_named(recipes, long[i], at));
            }
            if is_recipe_named(recipes, ids[n - 1], at) {
                assert(is_recipe_named(recipes, long[n - 1], at));
            }
            if refers_to(recipes, long, at) {
                let i = choose|i: int|
                    0 <= i < long.len() && is_recipe_named(recipes, #[trigger] long[i], at);
                if i < n - 1 {
                    assert(is_recipe_named(recipes, short[i], at));
                }
            }
        }
        if found < recipes.len() {
            lemma_members_of_both(before, seq![recipes[found]@], recipe);
            assert(after =~= before + seq![recipes[found]@]);
            assert(seq![recipes[found]@].contains(recipe) <==> recipe == recipes[found]@) by {
                assert(seq![recipes[found]@][0] == recipes[found]@);
            }
            assert(refers_to(recipes, long, found));
        }
        if after.contains(recipe) {
            if before.contains(recipe) {
                let at = choose|at: int|
                    0 <= at < recipes.len() && (#[trigger] recipes[at])@ == recipe && refers_to(
                        recipes,
                        short,
                        at,
                    );
                assert(refers_to(recipes, long, at));
            } else {
                assert(recipes[found]@ == recipe);
            }
        }
        if exists|at: int|
            0 <= at < recipes.len() && (#[trigger] recipes[at])@ == recipe && refers_to(
                recipes,
                long,
                at,
            ) {
            let at = choose|at: int|
                0 <= at < recipes.len() && (#[trigger] recipes[at])@ == recipe && refers_to(
                    recipes,
                    long,
                    at,
                );
            if refers_to(recipes, short, at) {
                assert(before.contains(recipe));
            } else {
                assert(at == found);
            }
        }
    } else {
        let none = ids.take(0);
        assert(none.len() == 0);
    }
}

/// The recipes of a task are those it refers to; where it refers to none that exists, the request's
/// own settings are.
pub proof fn lemma_recipes_are_those_referred_to(
    recipes: Seq<UiRecipe>,
    ids: Seq<Seq<char>>,
    fallback: UiRecipeView,
    recipe: UiRecipeView,
)
    ensures
        (exists|at: int| #[trigger] refers_to(recipes, ids, at)) ==> (task_recipes(
            recipes,
            ids,
            fallback,
        ).contains(recipe) <==> exists|at: int|
            0 <= at < recipes.len() && (#[trigger] recipes[at])@ == recipe && refers_to(
                recipes,
                ids,
                at,
            )),
        (forall|at: int| !(#[trigger] refers_to(recipes, ids, at))) ==> task_recipes(
            recipes,
            ids,
            fallback,
        ) == seq![fallback],
{
    assert(ids.take(ids.len() as int) =~= ids);
    lemma_referred(recipes, ids, ids.len() as int, recipe);
    let referred = referred_to(recipes, ids, ids.len() as int);
    if exists|at: int| #[trigger] refers_to(recipes, ids, at) {
        let at = choose|at: int| #[trigger] refers_to(recipes, ids, at);
        let i = choose|i: int| 0 <= i < ids.len() && is_recipe_named(recipes, #[trigger] ids[i], at);
        lemma_referred(recipes, ids, ids.len() as int, recipes[at]@);
        assert(recipes[at]@ == recipes[at]@);
        assert(referred.contains(recipes[at]@));
    } else if referred.len() > 0 {
        lemma_referred(recipes, ids, ids.len() as int, referred[0]);
        assert(referred.contains(referred[0]));
    }
}

/// Without a recipe a task runs the TCP windows of the request, else of the configuration, and the
/// numbers of streams of the request.
pub proof fn lemma_default_tcp_is_the_requests(req: RunRequest, cfg: ConfigView)
    ensures
        ({
            let recipe = default_tcp_recipe(req, cfg);
            &&& recipe.id == "default"@
            &&& recipe.profiles.len() == 0
            &&& recipe.windows.len() == 0
            &&& recipe.tcp_windows == cleaned_or(texts(req.tcp_windows@), cfg.iperf.tcp_windows)
            &&& recipe.tcp_streams == nonzero(req.tcp_streams@)
        }),
{
}

/// Without a recipe a task runs the UDP axes of the request or, where it gives none at all, the loads
/// of the configuration; its streams are those of the request, one at least.
pub proof fn lemma_default_udp_is_the_requests(req: RunRequest, cfg: ConfigView)
    ensures
        ({
            let recipe = default_udp_recipe(req, cfg);
            let none = req.udp_bandwidths@.len() == 0 && req.udp_lengths@.len() == 0
                && req.udp_windows@.len() == 0;
            &&& recipe.id == "default"@
            &&& recipe.profiles.len() == 0
            &&& recipe.lengths == texts(req.udp_lengths@)
            &&& recipe.windows == texts(req.udp_windows@)
            &&& recipe.udp_streams.len() == 1
            &&& req.udp_streams > 0 ==> recipe.udp_streams[0] == req.udp_streams
            &&& req.udp_streams == 0 ==> recipe.udp_streams[0] == 1
            &&& none ==> recipe.udp_profiles == cfg.iperf.udp_profiles
            &&& !none ==> recipe.udp_profiles.len() == 0
            &&& req.udp_bandwidths@.len() > 0 ==> recipe.bandwidths == texts(req.udp_bandwidths@)
            &&& req.udp_bandwidths@.len() == 0 ==> recipe.bandwidths.len()
                == cfg.iperf.udp_profiles.len() && forall|i: int|
                0 <= i < recipe.bandwidths.len() ==> #[trigger] recipe.bandwidths[i]
                    == cfg.iperf.udp_profiles[i].bandwidth
        }),
{
}

} // verus!
