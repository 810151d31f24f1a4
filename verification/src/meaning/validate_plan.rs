//! What a suite plan must say to be accepted.
use vstd::prelude::*;
use vstd::string::*;
use crate::meaning::rate::holds_a_rate;
use crate::meaning::recipes::written;
use crate::meaning::suite::{
    asks_direction, is_of_protocol, lemma_protocol_is_the_one_said, means_direction, means_version,
};
use crate::meaning::thresholds::{lemma_threshold_is_read, says_mbps};
use crate::meaning::validate::{
    all_bandwidths, all_lengths, all_sizes, all_streams, is_bandwidth, is_length, is_size,
    lemma_bandwidths_must_be_real, lemma_lengths_must_fit, lemma_windows_must_be_sizes,
};
use crate::model::{
    UiBinding, UiLinkSet, UiPairRef, UiPlan, UiRecipe, UiRecipeProfile, UiState, UiSuite, UiTask,
};
use crate::number::Double;
use crate::readings::{reading, side_text, Endpoint, Readings};
use crate::text::{alike, blank, lowered, opt_text, texts, trimmed};
use crate::validate::{rx_target, RxTarget};
use crate::validate_plan::{
    any_filled, binding_ids, binding_told, bindings_told, binds, bound_pairs_told, configured,
    direction_of, filled, gives_bandwidth, ip_of, link_repeats, link_sets_told, order_told,
    pair_ids, pair_refs_told, pair_topology_told, payload_too_large, plain_profiles_told, plan_told,
    recipe_ids, recipe_refs_told, recipe_told, recipes_for, recipes_told, referenced, same_link,
    set_ids, set_index, suite_ids, suites_told, task_ids, task_numbers_told, task_protocol,
    task_threshold_told, task_told, tasks_told, tcp_profiles_told, tcp_recipe_told,
    udp_profiles_told, udp_recipe_told, wants_bidir,
};

verus! {

/// The text at `i` occurs among those before it.
pub open spec fn occurred(list: Seq<Seq<char>>, i: int) -> bool {
    exists|j: int| 0 <= j < i && #[trigger] list[j] == list[i]
}

proof fn lemma_occurred(list: Seq<Seq<char>>, i: int)
    requires
        0 <= i < list.len(),
    ensures
        list.take(i).contains(list[i]) <==> occurred(list, i),
{
    let head = list.take(i);
    if head.contains(list[i]) {
        let j = choose|j: int| 0 <= j < head.len() && head[j] == list[i];
        assert(list[j] == list[i]);
    }
    if occurred(list, i) {
        let j = choose|j: int| 0 <= j < i && #[trigger] list[j] == list[i];
        assert(head[j] == list[i]);
    }
}

// ---------------------------------------------------------------------------
// Link sets
// ---------------------------------------------------------------------------

/// Two ends are the same interface of the same host.
pub open spec fn same_port(a: Endpoint, b: Endpoint) -> bool {
    a.side == b.side && a.nic.name@ == b.nic.name@
}

/// The key of an end tells its host and its interface.
pub proof fn lemma_keys_tell_ports_apart(a: Endpoint, b: Endpoint)
    ensures
        a.key_text() == b.key_text() <==> same_port(a, b),
        a.key_text().len() > 0,
{
    reveal_strlit("master");
    reveal_strlit("agent");
    reveal_strlit(":");
    let (x, y) = (a.key_text(), b.key_text());
    assert(side_text(a.side).len() >= 5);
    if x == y {
        assert(x[0] == side_text(a.side)[0]);
        assert(y[0] == side_text(b.side)[0]);
        assert("master"@[0] == 'm' && "agent"@[0] == 'a');
        assert(a.side == b.side);
        let n = side_text(a.side).len() as int + 1;
        assert(x.skip(n) =~= a.nic.name@);
        assert(y.skip(n) =~= b.nic.name@);
    }
}

/// The ends of a pair are read.
pub open spec fn reads_as(rd: Readings, pair: UiPairRef, a: Endpoint, b: Endpoint) -> bool {
    reading(rd.endpoints@, pair.src@) == Ok::<Endpoint, Seq<char>>(a) && reading(
        rd.endpoints@,
        pair.dst@,
    ) == Ok::<Endpoint, Seq<char>>(b)
}

/// A pair joins the same two interfaces as another, in either order.
pub open spec fn joins_the_same(rd: Readings, p: UiPairRef, q: UiPairRef) -> bool {
    exists|a: Endpoint, b: Endpoint, c: Endpoint, d: Endpoint|
        #[trigger] reads_as(rd, p, a, b) && #[trigger] reads_as(rd, q, c, d) && ((same_port(a, c)
            && same_port(b, d)) || (same_port(a, d) && same_port(b, c)))
}

/// A binding of the plan takes a pair of a link set.
pub open spec fn is_taken(plan: UiPlan, set: UiLinkSet, pair: UiPairRef) -> bool {
    exists|i: int|
        0 <= i < plan.bindings@.len() && (#[trigger] plan.bindings@[i]).link_set_id@ == set.id@ && (
        plan.bindings@[i].pair_ids@.len() == 0 || texts(plan.bindings@[i].pair_ids@).contains(
            pair.id@,
        ))
}

/// A pair has an id of its own and two ends that differ; one that is taken joins two interfaces that
/// differ and that no taken pair before it joins.
pub open spec fn is_pair_ref(rd: Readings, plan: UiPlan, set: UiLinkSet, i: int) -> bool {
    let pair = set.pair_refs@[i];
    &&& !blank(pair.id@)
    &&& !occurred(pair_ids(set.pair_refs@), i)
    &&& !blank(pair.src@)
    &&& !blank(pair.dst@)
    &&& pair.src@ != pair.dst@
    &&& is_taken(plan, set, pair) ==> {
        &&& exists|a: Endpoint, b: Endpoint| #[trigger]
            reads_as(rd, pair, a, b) && !same_port(a, b)
        &&& forall|j: int|
            0 <= j < i && is_taken(plan, set, #[trigger] set.pair_refs@[j]) ==> !joins_the_same(
                rd,
                set.pair_refs@[j],
                pair,
            )
    }
}

proof fn lemma_taken(plan: UiPlan, set: UiLinkSet, pair: UiPairRef)
    ensures
        referenced(plan, set.id@, pair.id@) <==> is_taken(plan, set, pair),
{
    if referenced(plan, set.id@, pair.id@) {
        let i = choose|i: int|
            0 <= i < plan.bindings@.len() && binds(#[trigger] plan.bindings@[i], set.id@, pair.id@);
        assert(plan.bindings@[i].link_set_id@ == set.id@);
    }
    if is_taken(plan, set, pair) {
        let i = choose|i: int|
            0 <= i < plan.bindings@.len() && (#[trigger] plan.bindings@[i]).link_set_id@ == set.id@
                && (plan.bindings@[i].pair_ids@.len() == 0 || texts(
                plan.bindings@[i].pair_ids@,
            ).contains(pair.id@));
        assert(binds(plan.bindings@[i], set.id@, pair.id@));
    }
}

proof fn lemma_same_link(rd: Readings, p: UiPairRef, q: UiPairRef, c: Endpoint, d: Endpoint)
    requires
        reads_as(rd, q, c, d),
    ensures
        same_link(rd, p, q) <==> joins_the_same(rd, p, q),
{
    lemma_keys_tell_ports_apart(c, d);
    lemma_keys_tell_ports_apart(d, c);
    match (reading(rd.endpoints@, p.src@), reading(rd.endpoints@, p.dst@)) {
        (Ok(a), Ok(b)) => {
            lemma_keys_tell_ports_apart(a, c);
            lemma_keys_tell_ports_apart(b, d);
            lemma_keys_tell_ports_apart(a, d);
            lemma_keys_tell_ports_apart(b, c);
            assert(reads_as(rd, p, a, b));
        },
        _ => {},
    }
}

proof fn lemma_pair_refs(state: UiState, rd: Readings, plan: UiPlan, set: UiLinkSet, i: int)
    requires
        0 <= i <= set.pair_refs@.len(),
    ensures
        pair_refs_told(state, rd, plan, set, i) is Ok <==> forall|k: int|
            i <= k < set.pair_refs@.len() ==> #[trigger] is_pair_ref(rd, plan, set, k),
    decreases set.pair_refs@.len() - i,
{
    if i < set.pair_refs@.len() {
        lemma_pair_refs(state, rd, plan, set, i + 1);
        let pair = set.pair_refs@[i];
        lemma_occurred(pair_ids(set.pair_refs@), i);
        lemma_taken(plan, set, pair);
        assert(is_pair_ref(rd, plan, set, i) <==> !blank(pair.id@) && !occurred(
            pair_ids(set.pair_refs@),
            i,
        ) && !blank(pair.src@) && !blank(pair.dst@) && pair.src@ != pair.dst@ && (referenced(
            plan,
            set.id@,
            pair.id@,
        ) ==> pair_topology_told(state, rd, plan, set, i) is Ok)) by {
            match (reading(rd.endpoints@, pair.src@), reading(rd.endpoints@, pair.dst@)) {
                (Ok(a), Ok(b)) => {
                    assert(reads_as(rd, pair, a, b));
                    lemma_keys_tell_ports_apart(a, b);
                    assert(link_repeats(rd, plan, set, i) <==> exists|j: int|
                        0 <= j < i && is_taken(plan, set, #[trigger] set.pair_refs@[j])
                            && joins_the_same(rd, set.pair_refs@[j], pair)) by {
                        assert forall|j: int| 0 <= j < i implies (referenced(
                            plan,
                            set.id@,
                            (#[trigger] set.pair_refs@[j]).id@,
                        ) <==> is_taken(plan, set, set.pair_refs@[j])) && (same_link(
                            rd,
                            set.pair_refs@[j],
                            pair,
                        ) <==> joins_the_same(rd, set.pair_refs@[j], pair)) by {
                            lemma_taken(plan, set, set.pair_refs@[j]);
                            lemma_same_link(rd, set.pair_refs@[j], pair, a, b);
                        }
                    }
                },
                _ => {},
            }
        }
    }
}

/// A link set has an id of its own and pairs that are in order.
pub open spec fn is_link_set(rd: Readings, plan: UiPlan, s: int) -> bool {
    let set = plan.link_sets@[s];
    &&& !blank(set.id@)
    &&& !occurred(set_ids(plan.link_sets@), s)
    &&& forall|k: int| 0 <= k < set.pair_refs@.len() ==> #[trigger] is_pair_ref(rd, plan, set, k)
}

proof fn lemma_link_sets(state: UiState, rd: Readings, plan: UiPlan, i: int)
    requires
        0 <= i <= plan.link_sets@.len(),
    ensures
        link_sets_told(state, rd, plan, i) is Ok <==> forall|k: int|
            i <= k < plan.link_sets@.len() ==> #[trigger] is_link_set(rd, plan, k),
    decreases plan.link_sets@.len() - i,
{
    if i < plan.link_sets@.len() {
        lemma_link_sets(state, rd, plan, i + 1);
        lemma_occurred(set_ids(plan.link_sets@), i);
        lemma_pair_refs(state, rd, plan, plan.link_sets@[i], 0);
        let set = plan.link_sets@[i];
        assert(is_link_set(rd, plan, i) <==> !blank(set.id@) && !set_ids(plan.link_sets@).take(
            i,
        ).contains(set.id@) && pair_refs_told(state, rd, plan, set, 0) is Ok);
    }
}

// ---------------------------------------------------------------------------
// Recipes
// ---------------------------------------------------------------------------

/// An optional text is missing, blank or a size.
pub open spec fn size_or_none(rd: Readings, text: Option<String>) -> bool {
    written(opt_text(text)) matches Some(s) ==> is_size(rd, s)
}

/// An optional text is missing, blank or a length.
pub open spec fn length_or_none(rd: Readings, text: Option<String>) -> bool {
    written(opt_text(text)) matches Some(s) ==> is_length(rd, s)
}

/// An optional text is missing, blank or a bandwidth.
pub open spec fn bandwidth_or_none(rd: Readings, text: Option<String>) -> bool {
    written(opt_text(text)) matches Some(s) ==> is_bandwidth(rd, s)
}

/// A TCP recipe has windows that are sizes and numbers of streams in bounds, in its profiles too.
pub open spec fn is_tcp_recipe(rd: Readings, recipe: UiRecipe) -> bool {
    &&& all_sizes(rd, texts(recipe.tcp_windows@))
    &&& all_sizes(rd, texts(recipe.windows@))
    &&& all_streams(recipe.tcp_streams@)
    &&& forall|k: int|
        0 <= k < recipe.profiles@.len() ==> {
            let profile = #[trigger] recipe.profiles@[k];
            &&& size_or_none(rd, profile.window)
            &&& profile.tcp_streams matches Some(own) ==> all_streams(own@)
            &&& profile.tcp_streams is None ==> all_streams(profile.streams@)
        }
}

proof fn lemma_tcp_profiles(rd: Readings, recipe: UiRecipe, i: int)
    requires
        0 <= i <= recipe.profiles@.len(),
    ensures
        tcp_profiles_told(rd, recipe, i) is Ok <==> forall|k: int|
            i <= k < recipe.profiles@.len() ==> {
                let profile = #[trigger] recipe.profiles@[k];
                &&& size_or_none(rd, profile.window)
                &&& profile.tcp_streams matches Some(own) ==> all_streams(own@)
                &&& profile.tcp_streams is None ==> all_streams(profile.streams@)
            },
    decreases recipe.profiles@.len() - i,
{
    if i < recipe.profiles@.len() {
        lemma_tcp_profiles(rd, recipe, i + 1);
    }
}

/// A TCP recipe is accepted exactly where it is one.
pub proof fn lemma_tcp_recipe_is_checked(rd: Readings, recipe: UiRecipe)
    ensures
        tcp_recipe_told(rd, recipe) is Ok <==> is_tcp_recipe(rd, recipe),
{
    let prefix = "TCP 配置 "@ + recipe.id@ + " 的 -w "@;
    lemma_windows_must_be_sizes(rd, texts(recipe.tcp_windows@), prefix, 0);
    lemma_windows_must_be_sizes(rd, texts(recipe.windows@), prefix, 0);
    lemma_tcp_profiles(rd, recipe, 0);
}

/// Some text of a list is not blank.
pub open spec fn some_text(list: Seq<String>) -> bool {
    exists|i: int| 0 <= i < list.len() && !blank((#[trigger] list[i])@)
}

/// A UDP recipe that says anything gives a bandwidth: in its loads; without loads, in its profiles or
/// for all of them; else in its list.
pub open spec fn can_be_run(recipe: UiRecipe) -> bool {
    if recipe.udp_profiles@.len() > 0 {
        exists|i: int|
            0 <= i < recipe.udp_profiles@.len() && !blank(
                (#[trigger] recipe.udp_profiles@[i]).bandwidth@,
            )
    } else if recipe.profiles@.len() > 0 {
        some_text(recipe.bandwidths@) || exists|i: int|
            0 <= i < recipe.profiles@.len() && written(
                opt_text((#[trigger] recipe.profiles@[i]).bandwidth),
            ) is Some
    } else {
        some_text(recipe.bandwidths@) || (recipe.bandwidths@.len() == 0 && recipe.lengths@.len() == 0
            && recipe.windows@.len() == 0 && recipe.udp_streams@.len() == 0)
    }
}

/// A UDP recipe gives bandwidths, lengths, windows and numbers of streams that are each of their
/// kind, and can be run.
pub open spec fn is_udp_recipe(rd: Readings, recipe: UiRecipe) -> bool {
    &&& all_bandwidths(rd, texts(recipe.bandwidths@))
    &&& all_lengths(rd, texts(recipe.lengths@))
    &&& all_sizes(rd, texts(recipe.windows@))
    &&& all_streams(recipe.udp_streams@)
    &&& forall|k: int|
        0 <= k < recipe.profiles@.len() ==> is_udp_profile(rd, #[trigger] recipe.profiles@[k])
    &&& forall|k: int|
        0 <= k < recipe.udp_profiles@.len() ==> {
            let load = #[trigger] recipe.udp_profiles@[k];
            &&& is_bandwidth(rd, trimmed(load.bandwidth@))
            &&& length_or_none(rd, load.length)
            &&& size_or_none(rd, load.window)
        }
    &&& can_be_run(recipe)
}

/// A profile of a UDP recipe gives what is each of its kind.
pub open spec fn is_udp_profile(rd: Readings, profile: UiRecipeProfile) -> bool {
    &&& bandwidth_or_none(rd, profile.bandwidth)
    &&& length_or_none(rd, profile.length)
    &&& size_or_none(rd, profile.window)
    &&& profile.udp_streams matches Some(own) ==> all_streams(own@)
    &&& profile.udp_streams is None ==> all_streams(profile.streams@)
}

proof fn lemma_udp_profiles(rd: Readings, recipe: UiRecipe, i: int)
    requires
        0 <= i <= recipe.profiles@.len(),
    ensures
        udp_profiles_told(rd, recipe, i) is Ok <==> forall|k: int|
            i <= k < recipe.profiles@.len() ==> is_udp_profile(rd, #[trigger] recipe.profiles@[k]),
    decreases recipe.profiles@.len() - i,
{
    if i < recipe.profiles@.len() {
        lemma_udp_profiles(rd, recipe, i + 1);
    }
}

proof fn lemma_plain_profiles(rd: Readings, recipe: UiRecipe, i: int)
    requires
        0 <= i <= recipe.udp_profiles@.len(),
    ensures
        plain_profiles_told(rd, recipe, i) is Ok <==> forall|k: int|
            i <= k < recipe.udp_profiles@.len() ==> {
                let load = #[trigger] recipe.udp_profiles@[k];
                &&& is_bandwidth(rd, trimmed(load.bandwidth@))
                &&& length_or_none(rd, load.length)
                &&& size_or_none(rd, load.window)
            },
    decreases recipe.udp_profiles@.len() - i,
{
    if i < recipe.udp_profiles@.len() {
        lemma_plain_profiles(rd, recipe, i + 1);
    }
}

/// A UDP recipe is accepted exactly where it is one.
pub proof fn lemma_udp_recipe_is_checked(rd: Readings, recipe: UiRecipe)
    ensures
        udp_recipe_told(rd, recipe) is Ok <==> is_udp_recipe(rd, recipe),
{
    let label = "UDP 配置 "@ + recipe.id@;
    lemma_bandwidths_must_be_real(rd, texts(recipe.bandwidths@), label, 0);
    lemma_lengths_must_fit(
        rd,
        texts(recipe.lengths@),
        label + " 的 -l "@,
        Some(label + " 的 -l 超过 65507 字节"@),
        0,
    );
    lemma_windows_must_be_sizes(rd, texts(recipe.windows@), label + " 的 -w "@, 0);
    lemma_udp_profiles(rd, recipe, 0);
    lemma_plain_profiles(rd, recipe, 0);
    assert((configured(recipe) ==> gives_bandwidth(recipe)) <==> can_be_run(recipe)) by {
        assert(any_filled(recipe.bandwidths@) <==> some_text(recipe.bandwidths@));
        assert forall|i: int| 0 <= i < recipe.profiles@.len() implies (filled(
            (#[trigger] recipe.profiles@[i]).bandwidth,
        ) <==> written(opt_text(recipe.profiles@[i].bandwidth)) is Some) by {}
    }
}

/// A recipe has an id that none before it has, in its list or another, and no mode; it is in order
/// for its protocol.
pub open spec fn is_recipe(
    rd: Readings,
    protocol: Seq<char>,
    recipes: Seq<UiRecipe>,
    before: Seq<Seq<char>>,
    i: int,
) -> bool {
    let recipe = recipes[i];
    &&& !blank(recipe.id@)
    &&& !before.contains(recipe.id@)
    &&& !occurred(recipe_ids(recipes), i)
    &&& blank(recipe.mode@)
    &&& protocol == "tcp"@ ==> is_tcp_recipe(rd, recipe)
    &&& protocol == "udp"@ ==> is_udp_recipe(rd, recipe)
}

proof fn lemma_recipes(
    rd: Readings,
    protocol: Seq<char>,
    recipes: Seq<UiRecipe>,
    before: Seq<Seq<char>>,
    i: int,
)
    requires
        0 <= i <= recipes.len(),
    ensures
        recipes_told(rd, protocol, recipes, before, i) is Ok <==> forall|k: int|
            i <= k < recipes.len() ==> #[trigger] is_recipe(rd, protocol, recipes, before, k),
    decreases recipes.len() - i,
{
    if i < recipes.len() {
        reveal_strlit("tcp");
        reveal_strlit("udp");
        assert("tcp"@[0] == 't' && "udp"@[0] == 'u');
        lemma_recipes(rd, protocol, recipes, before, i + 1);
        let ids = recipe_ids(recipes);
        lemma_occurred(ids, i);
        crate::meaning::recipes::lemma_members_of_both(before, ids.take(i), recipes[i].id@);
        lemma_tcp_recipe_is_checked(rd, recipes[i]);
        lemma_udp_recipe_is_checked(rd, recipes[i]);
        assert(ids[i] == recipes[i].id@);
        assert(is_recipe(rd, protocol, recipes, before, i) <==> !blank(recipes[i].id@) && !(before
            + ids.take(i)).contains(recipes[i].id@) && recipe_told(
            rd,
            protocol,
            recipes[i],
            i as nat,
        ) is Ok);
    }
}

// ---------------------------------------------------------------------------
// Tasks
// ---------------------------------------------------------------------------

/// A threshold is missing or a rate can be held to it.
pub open spec fn rate_or_none(v: Option<Double>) -> bool {
    v matches Some(x) ==> holds_a_rate(x)
}

/// A threshold of a task is blank, or a rate where the task runs both ways at once.
pub open spec fn threshold_fits(rd: Readings, task: UiTask, raw: Seq<char>) -> bool {
    blank(raw) || (asks_direction(texts(task.directions@), "bidir"@) && exists|v: Double| #[trigger]
        says_mbps(rd, raw, v))
}

proof fn lemma_direction_read(raw: Seq<char>)
    ensures
        direction_of(raw) is Some <==> means_direction(raw, "ab"@) || means_direction(raw, "ba"@)
            || means_direction(raw, "bidir"@),
        direction_of(raw) == Some("bidir"@) <==> means_direction(raw, "bidir"@),
{
    crate::meaning::suite::lemma_direction_words(raw);
}

proof fn lemma_version_read(raw: Seq<char>)
    ensures
        ip_of(raw) is Some <==> means_version(raw, "v4"@) || means_version(raw, "v6"@),
{
}

proof fn lemma_threshold_fits(
    rd: Readings,
    task: UiTask,
    label: Seq<char>,
    which: Seq<char>,
    raw: Seq<char>,
)
    ensures
        task_threshold_told(rd, label, task.directions@, which, raw) is Ok <==> threshold_fits(
            rd,
            task,
            raw,
        ),
{
    let list = texts(task.directions@);
    assert(wants_bidir(task.directions@) <==> asks_direction(list, "bidir"@)) by {
        if wants_bidir(task.directions@) {
            let i = choose|i: int|
                0 <= i < task.directions@.len() && direction_of((#[trigger] task.directions@[i])@)
                    == Some("bidir"@);
            lemma_direction_read(list[i]);
            assert(means_direction(list[i], "bidir"@));
        }
        if asks_direction(list, "bidir"@) {
            let i = choose|i: int|
                0 <= i < list.len() && means_direction(#[trigger] list[i], "bidir"@);
            lemma_direction_read(list[i]);
            assert(direction_of(task.directions@[i]@) == Some("bidir"@));
        }
    }
    match rx_target(rd, raw) {
        Ok(Some(RxTarget::Mbps(v))) => {
            lemma_threshold_is_read(rd, raw, v);
            assert(says_mbps(rd, raw, v));
        },
        _ => {
            if exists|v: Double| #[trigger] says_mbps(rd, raw, v) {
                let v = choose|v: Double| #[trigger] says_mbps(rd, raw, v);
                lemma_threshold_is_read(rd, raw, v);
            }
            lemma_threshold_is_read(rd, raw, Double { bits: 0 });
        },
    }
}

/// The numbers of a task are in bounds.
pub open spec fn numbers_fit(task: UiTask, protocol: Seq<char>) -> bool {
    &&& task.duration matches Some(d) ==> 1 <= d <= 86_400
    &&& task.rate_targets_mbps matches Some(t) ==> rate_or_none(t.forward) && rate_or_none(t.ab)
        && rate_or_none(t.ba)
    &&& protocol == "ping"@ ==> (task.ping_count matches Some(c) ==> c <= 100_000)
    &&& task.ping_payload_sizes matches Some(sizes) ==> {
        &&& forall|i: int| 0 <= i < sizes@.len() ==> #[trigger] sizes@[i] <= 65_500
        &&& protocol == "ping"@ ==> sizes@.len() > 0
    }
}

proof fn lemma_numbers_fit(suite: UiSuite, task: UiTask, protocol: Seq<char>)
    ensures
        task_numbers_told(suite, task, protocol) is Ok <==> numbers_fit(task, protocol),
{
    if let Some(sizes) = task.ping_payload_sizes {
        if payload_too_large(sizes@) {
            let i = choose|i: int| 0 <= i < sizes@.len() && #[trigger] sizes@[i] > 65_500;
            assert(!(sizes@[i] <= 65_500));
        }
    }
}

/// The recipes that a task of a protocol may refer to.
pub open spec fn recipes_of(plan: UiPlan, protocol: Seq<char>) -> Seq<UiRecipe> {
    if protocol == "tcp"@ {
        plan.recipes.tcp@
    } else if protocol == "udp"@ {
        plan.recipes.udp@
    } else {
        plan.recipes.ping@
    }
}

/// A task is of a protocol that its transports do not contradict, asks for directions and versions
/// that are understood, refers to recipes of its protocol once each (none for pings), and has numbers
/// and thresholds in bounds.
pub open spec fn is_task(rd: Readings, plan: UiPlan, task: UiTask) -> bool {
    exists|protocol: Seq<char>| #[trigger]
        is_of_protocol(task, protocol) && {
            let refs = texts(task.recipe_ids@);
            &&& forall|i: int|
                0 <= i < task.transports@.len() && !blank((#[trigger] task.transports@[i])@)
                    ==> lowered(trimmed(task.transports@[i]@)) == protocol
            &&& task.directions@.len() > 0
            &&& forall|i: int|
                0 <= i < task.directions@.len() ==> {
                    let raw = (#[trigger] task.directions@[i])@;
                    means_direction(raw, "ab"@) || means_direction(raw, "ba"@) || means_direction(
                        raw,
                        "bidir"@,
                    )
                }
            &&& task.ip@.len() > 0
            &&& forall|i: int|
                0 <= i < task.ip@.len() ==> {
                    let raw = (#[trigger] task.ip@[i])@;
                    means_version(raw, "v4"@) || means_version(raw, "v6"@)
                }
            &&& protocol == "ping"@ ==> task.recipe_ids@.len() == 0
            &&& forall|i: int|
                0 <= i < refs.len() ==> !(#[trigger] occurred(refs, i)) && recipe_ids(
                    recipes_of(plan, protocol),
                ).contains(refs[i])
            &&& numbers_fit(task, protocol)
            &&& threshold_fits(rd, task, task.rx_target_bidir_ab@)
            &&& threshold_fits(rd, task, task.rx_target_bidir_ba@)
            &&& threshold_fits(rd, task, task.rx_target_bidir_total@)
        }
}

proof fn lemma_refs(
    recipes: Seq<UiRecipe>,
    label: Seq<char>,
    protocol: Seq<char>,
    refs: Seq<Seq<char>>,
    i: int,
)
    requires
        0 <= i <= refs.len(),
    ensures
        recipe_refs_told(recipes, label, protocol, refs, i) is Ok <==> forall|k: int|
            i <= k < refs.len() ==> !(#[trigger] occurred(refs, k)) && recipe_ids(recipes).contains(
                refs[k],
            ),
    decreases refs.len() - i,
{
    if i < refs.len() {
        lemma_refs(recipes, label, protocol, refs, i + 1);
        lemma_occurred(refs, i);
        assert(occurred(refs, i) <==> refs.take(i).contains(refs[i]));
    }
}

/// A task is accepted exactly where it is one.
pub proof fn lemma_task_is_checked(rd: Readings, plan: UiPlan, suite: UiSuite, task: UiTask)
    ensures
        task_told(rd, plan, suite, task) is Ok <==> is_task(rd, plan, task),
{
    let label = crate::validate_plan::task_label(suite, task);
    let refs = texts(task.recipe_ids@);
    assert forall|p: Seq<char>| #[trigger]
        is_of_protocol(task, p) <==> task_protocol(task) == Some(p) by {
        lemma_protocol_is_the_one_said(task, p);
    }
    lemma_threshold_fits(rd, task, label, "A→B"@, task.rx_target_bidir_ab@);
    lemma_threshold_fits(rd, task, label, "B→A"@, task.rx_target_bidir_ba@);
    lemma_threshold_fits(rd, task, label, "双向 RX 合计"@, task.rx_target_bidir_total@);
    assert forall|i: int| 0 <= i < task.directions@.len() implies (direction_of(
        (#[trigger] task.directions@[i])@,
    ) is Some <==> (means_direction(task.directions@[i]@, "ab"@) || means_direction(
        task.directions@[i]@,
        "ba"@,
    ) || means_direction(task.directions@[i]@, "bidir"@))) by {
        lemma_direction_read(task.directions@[i]@);
    }
    assert forall|i: int| 0 <= i < task.ip@.len() implies (ip_of((#[trigger] task.ip@[i])@) is Some
        <==> (means_version(task.ip@[i]@, "v4"@) || means_version(task.ip@[i]@, "v6"@))) by {
        lemma_version_read(task.ip@[i]@);
    }
    if let Some(protocol) = task_protocol(task) {
        assert(is_of_protocol(task, protocol));
        lemma_refs(recipes_for(plan, protocol), label, protocol, refs, 0);
        lemma_numbers_fit(suite, task, protocol);
        assert(recipes_for(plan, protocol) == recipes_of(plan, protocol));
    }
}

// ---------------------------------------------------------------------------
// Suites
// ---------------------------------------------------------------------------

/// A suite has an id of its own, runs in sequence, has tasks with ids of their own that are in order,
/// and orders only its own tasks, each once.
pub open spec fn is_suite(rd: Readings, plan: UiPlan, s: int) -> bool {
    let suite = plan.suites@[s];
    &&& !blank(suite.id@)
    &&& !occurred(suite_ids(plan.suites@), s)
    &&& blank(suite.execution@) || alike(suite.execution@, "sequential"@)
    &&& suite.tasks@.len() > 0
    &&& forall|k: int|
        0 <= k < suite.tasks@.len() ==> !blank((#[trigger] suite.tasks@[k]).id@) && !occurred(
            task_ids(suite.tasks@),
            k,
        ) && is_task(rd, plan, suite.tasks@[k])
    &&& forall|k: int|
        0 <= k < suite.order@.len() ==> task_ids(suite.tasks@).contains(
            (#[trigger] suite.order@[k])@,
        ) && !occurred(texts(suite.order@), k)
}

proof fn lemma_tasks(rd: Readings, plan: UiPlan, suite: UiSuite, i: int)
    requires
        0 <= i <= suite.tasks@.len(),
    ensures
        tasks_told(rd, plan, suite, i) is Ok <==> forall|k: int|
            i <= k < suite.tasks@.len() ==> !blank((#[trigger] suite.tasks@[k]).id@) && !occurred(
                task_ids(suite.tasks@),
                k,
            ) && is_task(rd, plan, suite.tasks@[k]),
    decreases suite.tasks@.len() - i,
{
    if i < suite.tasks@.len() {
        lemma_tasks(rd, plan, suite, i + 1);
        lemma_occurred(task_ids(suite.tasks@), i);
        lemma_task_is_checked(rd, plan, suite, suite.tasks@[i]);
    }
}

proof fn lemma_order(suite: UiSuite, i: int)
    requires
        0 <= i <= suite.order@.len(),
    ensures
        order_told(suite, i) is Ok <==> forall|k: int|
            i <= k < suite.order@.len() ==> task_ids(suite.tasks@).contains(
                (#[trigger] suite.order@[k])@,
            ) && !occurred(texts(suite.order@), k),
    decreases suite.order@.len() - i,
{
    if i < suite.order@.len() {
        lemma_order(suite, i + 1);
        lemma_occurred(texts(suite.order@), i);
    }
}

proof fn lemma_suites(rd: Readings, plan: UiPlan, i: int)
    requires
        0 <= i <= plan.suites@.len(),
    ensures
        suites_told(rd, plan, i) is Ok <==> forall|k: int|
            i <= k < plan.suites@.len() ==> #[trigger] is_suite(rd, plan, k),
    decreases plan.suites@.len() - i,
{
    if i < plan.suites@.len() {
        lemma_suites(rd, plan, i + 1);
        lemma_occurred(suite_ids(plan.suites@), i);
        lemma_tasks(rd, plan, plan.suites@[i], 0);
        lemma_order(plan.suites@[i], 0);
        let suite = plan.suites@[i];
        assert(suite_ids(plan.suites@)[i] == suite.id@);
        assert(is_suite(rd, plan, i) <==> !blank(suite.id@) && !suite_ids(plan.suites@).take(
            i,
        ).contains(suite.id@) && (blank(suite.execution@) || alike(
            suite.execution@,
            "sequential"@,
        )) && suite.tasks@.len() > 0 && tasks_told(rd, plan, suite, 0) is Ok && order_told(
            suite,
            0,
        ) is Ok);
    }
}

// ---------------------------------------------------------------------------
// Bindings
// ---------------------------------------------------------------------------

/// The link set at `s` is the first of an id.
pub open spec fn is_set_named(plan: UiPlan, id: Seq<char>, s: int) -> bool {
    &&& 0 <= s < plan.link_sets@.len()
    &&& plan.link_sets@[s].id@ == id
    &&& forall|i: int| 0 <= i < s ==> (#[trigger] plan.link_sets@[i]).id@ != id
}

/// A binding has an id of its own, binds a suite to a link set that exist, replaces what was bound,
/// and takes pairs of the set, each once, or the whole set where that has pairs.
pub open spec fn is_binding(plan: UiPlan, b: int) -> bool {
    let binding = plan.bindings@[b];
    &&& !blank(binding.id@)
    &&& !occurred(binding_ids(plan.bindings@), b)
    &&& suite_ids(plan.suites@).contains(binding.suite_id@)
    &&& blank(binding.mode@) || alike(trimmed(binding.mode@), "replace"@)
    &&& exists|s: int| #[trigger]
        is_set_named(plan, binding.link_set_id@, s) && (forall|k: int|
            0 <= k < binding.pair_ids@.len() ==> !occurred(texts(binding.pair_ids@), k) && pair_ids(
                plan.link_sets@[s].pair_refs@,
            ).contains((#[trigger] binding.pair_ids@[k])@)) && (binding.pair_ids@.len() > 0
            || plan.link_sets@[s].pair_refs@.len() > 0)
}

proof fn lemma_set_named(plan: UiPlan, id: Seq<char>, i: int)
    requires
        0 <= i <= plan.link_sets@.len(),
        forall|j: int| 0 <= j < i ==> (#[trigger] plan.link_sets@[j]).id@ != id,
    ensures
        set_index(plan.link_sets@, id, i) < plan.link_sets@.len() ==> is_set_named(
            plan,
            id,
            set_index(plan.link_sets@, id, i),
        ),
        forall|s: int| #[trigger]
            is_set_named(plan, id, s) ==> s == set_index(plan.link_sets@, id, i),
    decreases plan.link_sets@.len() - i,
{
    if i < plan.link_sets@.len() && plan.link_sets@[i].id@ != id {
        lemma_set_named(plan, id, i + 1);
    }
}

proof fn lemma_bound_pairs(binding: UiBinding, set: UiLinkSet, i: int)
    requires
        0 <= i <= binding.pair_ids@.len(),
    ensures
        bound_pairs_told(binding, set, i) is Ok <==> forall|k: int|
            i <= k < binding.pair_ids@.len() ==> !occurred(texts(binding.pair_ids@), k) && pair_ids(
                set.pair_refs@,
            ).contains((#[trigger] binding.pair_ids@[k])@),
    decreases binding.pair_ids@.len() - i,
{
    if i < binding.pair_ids@.len() {
        lemma_bound_pairs(binding, set, i + 1);
        lemma_occurred(texts(binding.pair_ids@), i);
    }
}

proof fn lemma_bindings(plan: UiPlan, i: int)
    requires
        0 <= i <= plan.bindings@.len(),
    ensures
        bindings_told(plan, i) is Ok <==> forall|k: int|
            i <= k < plan.bindings@.len() ==> #[trigger] is_binding(plan, k),
    decreases plan.bindings@.len() - i,
{
    if i < plan.bindings@.len() {
        lemma_bindings(plan, i + 1);
        let binding = plan.bindings@[i];
        lemma_occurred(binding_ids(plan.bindings@), i);
        lemma_set_named(plan, binding.link_set_id@, 0);
        let s = set_index(plan.link_sets@, binding.link_set_id@, 0);
        if s < plan.link_sets@.len() {
            assert(is_set_named(plan, binding.link_set_id@, s));
            lemma_bound_pairs(binding, plan.link_sets@[s], 0);
        }
        assert(binding_ids(plan.bindings@)[i] == binding.id@);
        assert(is_binding(plan, i) <==> !blank(binding.id@) && !binding_ids(plan.bindings@).take(
            i,
        ).contains(binding.id@) && binding_told(plan, binding) is Ok);
    }
}

// ---------------------------------------------------------------------------
// Plans
// ---------------------------------------------------------------------------

/// A plan is of the version that is known, has link sets, suites and bindings, and all its parts are
/// in order; ids of recipes differ across protocols.
pub open spec fn is_plan(rd: Readings, plan: UiPlan) -> bool {
    let tcp = recipe_ids(plan.recipes.tcp@);
    let udp = recipe_ids(plan.recipes.udp@);
    &&& plan.ui_plan_version <= 1
    &&& plan.link_sets@.len() > 0
    &&& plan.suites@.len() > 0
    &&& plan.bindings@.len() > 0
    &&& forall|k: int| 0 <= k < plan.link_sets@.len() ==> #[trigger] is_link_set(rd, plan, k)
    &&& forall|k: int|
        0 <= k < plan.recipes.tcp@.len() ==> #[trigger] is_recipe(
            rd,
            "tcp"@,
            plan.recipes.tcp@,
            Seq::empty(),
            k,
        )
    &&& forall|k: int|
        0 <= k < plan.recipes.udp@.len() ==> #[trigger] is_recipe(
            rd,
            "udp"@,
            plan.recipes.udp@,
            tcp,
            k,
        )
    &&& forall|k: int|
        0 <= k < plan.recipes.ping@.len() ==> #[trigger] is_recipe(
            rd,
            "ping"@,
            plan.recipes.ping@,
            tcp + udp,
            k,
        )
    &&& forall|k: int| 0 <= k < plan.suites@.len() ==> #[trigger] is_suite(rd, plan, k)
    &&& forall|k: int| 0 <= k < plan.bindings@.len() ==> #[trigger] is_binding(plan, k)
}

/// A plan is accepted exactly where it is one.
pub proof fn lemma_plan_is_checked(state: UiState, rd: Readings, plan: UiPlan)
    ensures
        plan_told(state, rd, plan) is Ok <==> is_plan(rd, plan),
{
    let tcp = recipe_ids(plan.recipes.tcp@);
    let udp = recipe_ids(plan.recipes.udp@);
    lemma_link_sets(state, rd, plan, 0);
    lemma_recipes(rd, "tcp"@, plan.recipes.tcp@, Seq::empty(), 0);
    lemma_recipes(rd, "udp"@, plan.recipes.udp@, tcp, 0);
    lemma_recipes(rd, "ping"@, plan.recipes.ping@, tcp + udp, 0);
    lemma_suites(rd, plan, 0);
    lemma_bindings(plan, 0);
}

} // verus!
