//! What the tests of a suite plan say of the tasks they come from.
use vstd::prelude::*;
use vstd::string::*;
use crate::config::{ConfigView, TestSpecView, TotalTarget};
use crate::laws::{
    lemma_bound_pairs_in_range, lemma_set_index, lemma_suite_index, lemma_task_order_in_range,
};
use crate::meaning::lists::is_pinned;
use crate::meaning::matrix::both_wireless;
use crate::meaning::rate::{asks_for, lemma_threshold_of_a_direction};
use crate::meaning::recipes::{
    is_tcp_run, is_udp_run, lemma_members_of_both, lemma_tcp_recipe_is_run, lemma_udp_recipe_is_run,
};
use crate::meaning::thresholds::{lemma_no_rate_without_words, lemma_threshold_is_read, says_mbps};
use crate::model::{
    NicPolicySelection, RunRequest, UiBinding, UiLinkSet, UiPairRef, UiPlan, UiRecipes, UiState,
    UiSuite, UiTask,
};
use crate::number::Double;
use crate::plan::{all_with_wifi_targets, direction_pinned, directions_where, fixed_bandwidth};
use crate::readings::Readings;
use crate::round_trip::rows::{lemma_directions_where, lemma_with_text};
use crate::suite::{
    default_bandwidths, default_tcp_recipe, default_udp_recipe, directions_meant,
    directions_meant_to, display_name, endpoint_pinned, name_parts, ping_recipe_ids, same_shape,
    shape_repeats, task_recipes, task_test, task_tests, tcp_task_runs, tcp_task_runs_to,
    udp_run_tests, udp_run_tests_to, udp_task_runs, udp_task_runs_to, versions_meant,
    versions_meant_to, UiTcpProfileView, UiUdpProfileView,
};
use crate::suite_plan::{
    binding_tests, bound_pairs, bound_tests_to, lemma_place_of, lemma_run_order_to,
    pair_task_tests_to, places_to, plan_tests_to, request_config, run_order, suite_base_config,
    task_order,
};
use crate::sweep::nonzero;
use crate::text::{blank, decimal, joined_to, lowered, texts, trimmed};
use crate::validate_plan::{
    direction_of, ip_of, pair_ids, request_told, set_index, suite_index, suites_told, task_protocol,
    tasks_told,
};
use crate::wifi_targets::{lemma_wifi_thresholds_fill_gaps, with_wifi_targets};

verus! {

// ---------------------------------------------------------------------------
// Words of a task
// ---------------------------------------------------------------------------

/// A text asks for a direction, however it spells it.
pub open spec fn means_direction(raw: Seq<char>, dir: Seq<char>) -> bool {
    let t = lowered(trimmed(raw));
    ||| dir == "ab"@ && (t == "ab"@ || t == "a->b"@ || t == "a>b"@ || t == "a_to_b"@ || t
        == "both"@)
    ||| dir == "ba"@ && (t == "ba"@ || t == "b->a"@ || t == "b>a"@ || t == "b_to_a"@ || t
        == "both"@)
    ||| dir == "bidir"@ && (t == "bidir"@ || t == "both-way"@ || t == "a<->b"@ || t == "双向"@)
}

/// A list asks for a direction.
pub open spec fn asks_direction(raw: Seq<Seq<char>>, dir: Seq<char>) -> bool {
    exists|i: int| 0 <= i < raw.len() && means_direction(#[trigger] raw[i], dir)
}

pub(crate) proof fn lemma_direction_words(raw: Seq<char>)
    ensures
        direction_of(raw) == Some("both"@) <==> lowered(trimmed(raw)) == "both"@,
        direction_of(raw) == Some("ab"@) || direction_of(raw) == Some("both"@) <==> means_direction(
            raw,
            "ab"@,
        ),
        direction_of(raw) == Some("ba"@) || direction_of(raw) == Some("both"@) <==> means_direction(
            raw,
            "ba"@,
        ),
        direction_of(raw) == Some("bidir"@) <==> means_direction(raw, "bidir"@),
        direction_of(raw) matches Some(d) ==> d == "ab"@ || d == "ba"@ || d == "bidir"@ || d
            == "both"@,
        "ab"@ != "ba"@ && "ab"@ != "bidir"@ && "ba"@ != "bidir"@ && "ab"@ != "both"@ && "ba"@
            != "both"@ && "bidir"@ != "both"@,
{
    reveal_strlit("ab");
    reveal_strlit("a->b");
    reveal_strlit("a>b");
    reveal_strlit("a_to_b");
    reveal_strlit("ba");
    reveal_strlit("b->a");
    reveal_strlit("b>a");
    reveal_strlit("b_to_a");
    reveal_strlit("bidir");
    reveal_strlit("both-way");
    reveal_strlit("a<->b");
    reveal_strlit("双向");
    reveal_strlit("both");
    assert("ab"@.len() == 2 && "ba"@.len() == 2 && "bidir"@.len() == 5 && "both"@.len() == 4);
    assert("双向"@.len() == 2 && "双向"@[0] == '双');
    assert("ab"@[0] == 'a' && "ba"@[0] == 'b' && "bidir"@[0] == 'b' && "both"@[1] == 'o');
    assert("a->b"@[0] == 'a' && "a>b"@[0] == 'a' && "a_to_b"@[0] == 'a');
    assert("a->b"@.len() == 4 && "a>b"@.len() == 3 && "a_to_b"@.len() == 6);
    assert("b->a"@[0] == 'b' && "b>a"@[0] == 'b' && "b_to_a"@[0] == 'b' && "b->a"@[1] == '-');
    assert("b->a"@.len() == 4 && "b>a"@.len() == 3 && "b_to_a"@.len() == 6);
    assert("both-way"@.len() == 8 && "a<->b"@.len() == 5 && "a<->b"@[0] == 'a');
}

proof fn lemma_directions_meant_to(raw: Seq<Seq<char>>, n: int, x: Seq<char>)
    requires
        0 <= n <= raw.len(),
    ensures
        directions_meant_to(raw, n).contains(x) <==> exists|i: int|
            0 <= i < n && means_direction(#[trigger] raw[i], x),
        directions_meant_to(raw, n).no_duplicates(),
    decreases n,
{
    if n > 0 {
        lemma_directions_meant_to(raw, n - 1, x);
        let before = directions_meant_to(raw, n - 1);
        lemma_direction_words(raw[n - 1]);
        lemma_with_text(before, "ab"@);
        lemma_with_text(crate::suite::with_text(before, "ab"@), "ba"@);
        if let Some(d) = direction_of(raw[n - 1]) {
            lemma_with_text(before, d);
            if d == "both"@ {
                assert(directions_meant_to(raw, n).contains(x) <==> before.contains(x) || x
                    == "ab"@ || x == "ba"@) by {
                    let once = crate::suite::with_text(before, "ab"@);
                    assert(once.contains(x) <==> before.contains(x) || x == "ab"@);
                }
            }
        }
        assert(directions_meant_to(raw, n).contains(x) <==> before.contains(x) || means_direction(
            raw[n - 1],
            x,
        ));
    }
}

/// The directions of a task are those that its texts ask for, each once.
pub proof fn lemma_directions_are_those_asked_for(raw: Seq<Seq<char>>, x: Seq<char>)
    ensures
        directions_meant(raw).contains(x) <==> asks_direction(raw, x),
        directions_meant(raw).no_duplicates(),
{
    lemma_directions_meant_to(raw, raw.len() as int, x);
}

/// A text asks for a version of the protocol, however it spells it.
pub open spec fn means_version(raw: Seq<char>, ip: Seq<char>) -> bool {
    let t = lowered(trimmed(raw));
    ||| ip == "v4"@ && (t == "v4"@ || t == "ipv4"@ || t == "4"@)
    ||| ip == "v6"@ && (t == "v6"@ || t == "ipv6"@ || t == "6"@)
}

/// A list asks for a version of the protocol.
pub open spec fn asks_version(raw: Seq<Seq<char>>, ip: Seq<char>) -> bool {
    exists|i: int| 0 <= i < raw.len() && means_version(#[trigger] raw[i], ip)
}

proof fn lemma_versions_meant_to(raw: Seq<Seq<char>>, n: int, x: Seq<char>)
    requires
        0 <= n <= raw.len(),
    ensures
        versions_meant_to(raw, n).contains(x) <==> exists|i: int|
            0 <= i < n && means_version(#[trigger] raw[i], x),
        versions_meant_to(raw, n).no_duplicates(),
    decreases n,
{
    if n > 0 {
        lemma_versions_meant_to(raw, n - 1, x);
        let before = versions_meant_to(raw, n - 1);
        reveal_strlit("v4");
        reveal_strlit("ipv4");
        reveal_strlit("4");
        reveal_strlit("v6");
        reveal_strlit("ipv6");
        reveal_strlit("6");
        assert("v4"@[1] == '4' && "v6"@[1] == '6' && "4"@[0] == '4' && "6"@[0] == '6');
        assert("ipv4"@[3] == '4' && "ipv6"@[3] == '6');
        if let Some(ip) = ip_of(raw[n - 1]) {
            lemma_with_text(before, ip);
        }
        assert(versions_meant_to(raw, n).contains(x) <==> before.contains(x) || means_version(
            raw[n - 1],
            x,
        ));
    }
}

/// The versions of a task are those that its texts ask for, each once.
pub proof fn lemma_versions_are_those_asked_for(raw: Seq<Seq<char>>, x: Seq<char>)
    ensures
        versions_meant(raw).contains(x) <==> asks_version(raw, x),
        versions_meant(raw).no_duplicates(),
{
    lemma_versions_meant_to(raw, raw.len() as int, x);
}

/// A task is of a protocol: its text for it says so or, where that is blank, its only transport.
pub open spec fn is_of_protocol(task: UiTask, protocol: Seq<char>) -> bool {
    &&& protocol == "tcp"@ || protocol == "udp"@ || protocol == "ping"@
    &&& if blank(task.protocol@) {
        task.transports@.len() == 1 && lowered(trimmed(task.transports@[0]@)) == protocol
    } else {
        lowered(trimmed(task.protocol@)) == protocol
    }
}

/// The protocol of a task is the one that it says.
pub proof fn lemma_protocol_is_the_one_said(task: UiTask, protocol: Seq<char>)
    ensures
        task_protocol(task) == Some(protocol) <==> is_of_protocol(task, protocol),
{
    reveal_strlit("tcp");
    reveal_strlit("udp");
    reveal_strlit("ping");
    assert("tcp"@.len() == 3 && "udp"@.len() == 3 && "ping"@.len() == 4);
}

// ---------------------------------------------------------------------------
// What a test has of its task
// ---------------------------------------------------------------------------

/// A test says which binding, link set, pair, suite, task and recipe it comes from.
pub open spec fn names_its_origin(
    t: TestSpecView,
    binding_id: Seq<char>,
    set: UiLinkSet,
    pair: UiPairRef,
    suite: UiSuite,
    task: UiTask,
) -> bool {
    &&& t.origin matches Some(origin) && {
        &&& origin.pair_id == pair.id@
        &&& origin.link_set_id == set.id@
        &&& origin.link_set_name == set.name@
        &&& origin.binding_id == binding_id
        &&& origin.suite_id == suite.id@
        &&& origin.task_id == task.id@
    }
    &&& blank(set.name@) ==> t.link_group is None
    &&& !blank(set.name@) ==> t.link_group == Some(trimmed(set.name@))
}

/// A test runs as long as its task says or, where the task says nothing, as the request says.
pub open spec fn lasts_as_told(t: TestSpecView, req: RunRequest, task: UiTask) -> bool {
    &&& task.duration matches Some(own) ==> t.iperf_duration == Some(own)
    &&& task.duration is None ==> t.iperf_duration == Some(req.duration)
}

/// A test pings as its task says.
pub open spec fn pings_as_told(t: TestSpecView, task: UiTask) -> bool {
    &&& task.ping_count is None || task.ping_count == Some(0u32) ==> t.ping_count is None
    &&& task.ping_count is Some && task.ping_count != Some(0u32) ==> t.ping_count == task.ping_count
    &&& task.ping_payload_sizes matches Some(sizes) ==> t.ping_payload_sizes == Some(sizes@)
    &&& task.ping_payload_sizes is None ==> t.ping_payload_sizes is None
}

/// A test is held to what its task says: in its mode, to its thresholds, and while both directions
/// run to the text of each direction and to that of the total.
pub open spec fn held_as_told(
    t: TestSpecView,
    rd: Readings,
    pair: UiPairRef,
    task: UiTask,
) -> bool {
    &&& t.rate_mode == task.rate_mode
    &&& !both_wireless(rd, pair.src@, pair.dst@) ==> t.rate_targets_mbps == task.rate_targets_mbps
    &&& forall|dir: Seq<char>, v: Double|
        task.rate_targets_mbps is Some && #[trigger] asks_for(task.rate_targets_mbps->0, dir, v)
            ==> t.rate_targets_mbps is Some && asks_for(t.rate_targets_mbps->0, dir, v)
    &&& forall|v: Double|
        (t.rate_targets_bidir_mbps is Some && t.rate_targets_bidir_mbps->0.ab == Some(v))
            <==> #[trigger] says_mbps(rd, task.rx_target_bidir_ab@, v)
    &&& forall|v: Double|
        (t.rate_targets_bidir_mbps is Some && t.rate_targets_bidir_mbps->0.ba == Some(v))
            <==> #[trigger] says_mbps(rd, task.rx_target_bidir_ba@, v)
    &&& t.rate_targets_bidir_mbps matches Some(both) ==> both.forward is None && (both.ab is Some
        || both.ba is Some)
    &&& forall|v: Double| #[trigger]
        says_mbps(rd, task.rx_target_bidir_total@, v) ==> t.rate_target_bidir_total_mbps == Some(
            TotalTarget::Total(v),
        )
    &&& (forall|v: Double| !(#[trigger] says_mbps(rd, task.rx_target_bidir_total@, v)))
        && !both_wireless(rd, pair.src@, pair.dst@) ==> t.rate_target_bidir_total_mbps is None
}

/// A test has of its task what every test of it has.
pub open spec fn speaks_for_task(
    t: TestSpecView,
    rd: Readings,
    req: RunRequest,
    binding_id: Seq<char>,
    set: UiLinkSet,
    pair: UiPairRef,
    suite: UiSuite,
    task: UiTask,
) -> bool {
    &&& t.src == pair.src@
    &&& t.dst == pair.dst@
    &&& t.streams == 1
    &&& t.direction_listed
    &&& names_its_origin(t, binding_id, set, pair, suite, task)
    &&& lasts_as_told(t, req, task)
    &&& pings_as_told(t, task)
    &&& held_as_told(t, rd, pair, task)
    &&& forall|x: Seq<char>| #[trigger] t.ip.contains(x) <==> asks_version(texts(task.ip@), x)
}

/// A duration that a task gives is in bounds.
pub open spec fn fits(task: UiTask) -> bool {
    task.duration matches Some(d) ==> 1 <= d <= 86_400
}

proof fn lemma_test_speaks_for_its_task(
    rd: Readings,
    pair: UiPairRef,
    suite: UiSuite,
    task: UiTask,
    req: RunRequest,
    binding_id: Seq<char>,
    set: UiLinkSet,
    protocol: Seq<char>,
    directions: Seq<Seq<char>>,
    label: Seq<char>,
    recipe_id: Seq<char>,
    plain: TestSpecView,
)
    requires
        fits(task),
        1 <= req.duration <= 86_400,
        ({
            let base = task_test(
                rd,
                pair,
                suite,
                task,
                req,
                binding_id,
                set,
                protocol,
                directions,
                label,
                recipe_id,
            );
            plain == (TestSpecView {
                tcp_streams: plain.tcp_streams,
                tcp_windows: plain.tcp_windows,
                udp_streams: plain.udp_streams,
                udp_profiles: plain.udp_profiles,
                ..base
            })
        }),
    ensures
        ({
            let t = with_wifi_targets(plain, rd, req, pair.src@, pair.dst@);
            &&& speaks_for_task(t, rd, req, binding_id, set, pair, suite, task)
            &&& t.origin->0.recipe_id == recipe_id
            &&& t.name == display_name(suite, task, label)
            &&& t.direction == directions
            &&& t.tcp_streams == plain.tcp_streams
            &&& t.tcp_windows == plain.tcp_windows
            &&& t.udp_streams == plain.udp_streams
            &&& t.udp_profiles == plain.udp_profiles
            &&& t.kinds == plain.kinds
            &&& t.transports == plain.transports
        }),
{
    let t = with_wifi_targets(plain, rd, req, pair.src@, pair.dst@);
    lemma_wifi_thresholds_fill_gaps(plain, rd, req, pair.src@, pair.dst@);
    assert forall|v: Double|
        (t.rate_targets_bidir_mbps is Some && t.rate_targets_bidir_mbps->0.ab == Some(v))
            <==> #[trigger] says_mbps(rd, task.rx_target_bidir_ab@, v) by {
        lemma_threshold_is_read(rd, task.rx_target_bidir_ab@, v);
    }
    assert forall|v: Double|
        (t.rate_targets_bidir_mbps is Some && t.rate_targets_bidir_mbps->0.ba == Some(v))
            <==> #[trigger] says_mbps(rd, task.rx_target_bidir_ba@, v) by {
        lemma_threshold_is_read(rd, task.rx_target_bidir_ba@, v);
    }
    assert forall|v: Double| #[trigger]
        says_mbps(rd, task.rx_target_bidir_total@, v) implies t.rate_target_bidir_total_mbps
        == Some(TotalTarget::Total(v)) by {
        lemma_threshold_is_read(rd, task.rx_target_bidir_total@, v);
    }
    if forall|v: Double| !(#[trigger] says_mbps(rd, task.rx_target_bidir_total@, v)) {
        lemma_no_rate_without_words(rd, task.rx_target_bidir_total@);
    }
    assert forall|dir: Seq<char>, v: Double|
        task.rate_targets_mbps is Some && #[trigger] asks_for(
            task.rate_targets_mbps->0,
            dir,
            v,
        ) implies t.rate_targets_mbps is Some && asks_for(t.rate_targets_mbps->0, dir, v) by {
        lemma_threshold_of_a_direction(task.rate_targets_mbps->0, dir, v);
        lemma_threshold_of_a_direction(t.rate_targets_mbps->0, dir, v);
        assert(dir == "ab"@ || dir == "ba"@);
    }
    assert forall|x: Seq<char>| #[trigger]
        t.ip.contains(x) <==> asks_version(texts(task.ip@), x) by {
        lemma_versions_are_those_asked_for(texts(task.ip@), x);
    }
}

/// A TCP test of a task: in the directions that the task asks for, one run of one of its recipes.
pub open spec fn is_tcp_test(
    t: TestSpecView,
    suite: UiSuite,
    task: UiTask,
    req: RunRequest,
    recipes: UiRecipes,
    cfg: ConfigView,
    run: UiTcpProfileView,
) -> bool {
    let chosen = task_recipes(
        recipes.tcp@,
        texts(task.recipe_ids@),
        default_tcp_recipe(req, cfg),
    );
    &&& is_of_protocol(task, "tcp"@)
    &&& exists|r: int|
        0 <= r < chosen.len() && is_tcp_run(#[trigger] chosen[r], nonzero(req.tcp_streams@), run)
    &&& t.kinds == seq!["iperf"@]
    &&& t.transports == seq!["tcp"@]
    &&& forall|x: Seq<char>| #[trigger]
        t.direction.contains(x) <==> asks_direction(texts(task.directions@), x)
    &&& t.tcp_streams == Some(run.streams)
    &&& t.tcp_windows == Some(
        match run.window {
            Some(w) => seq![w],
            None => Seq::<Seq<char>>::empty(),
        },
    )
    &&& t.udp_streams is None
    &&& t.udp_profiles is None
    &&& t.origin->0.recipe_id == run.recipe_id
    &&& t.name == display_name(suite, task, "TCP -P "@ + decimal(run.streams as nat))
}

/// A direction's load comes from a pinned interface of the pair.
pub open spec fn pinned_on(req: RunRequest, pair: UiPairRef, dir: Seq<char>) -> bool {
    if dir == "ab"@ {
        is_pinned(req.nic_policies@, pair.src@)
    } else if dir == "ba"@ {
        is_pinned(req.nic_policies@, pair.dst@)
    } else {
        dir == "bidir"@ && is_pinned(req.nic_policies@, pair.src@) && is_pinned(
            req.nic_policies@,
            pair.dst@,
        )
    }
}

/// The bandwidth that the first policy of either end gives which gives one, else the run's own.
pub open spec fn bandwidth_on(
    policies: Seq<NicPolicySelection>,
    pair: UiPairRef,
    own: Seq<char>,
    bandwidth: Seq<char>,
) -> bool {
    ||| exists|i: int|
        0 <= i < policies.len() && ((#[trigger] policies[i]).endpoint@ == pair.src@
            || policies[i].endpoint@ == pair.dst@) && !blank(policies[i].udp_bandwidth@)
            && bandwidth == trimmed(policies[i].udp_bandwidth@) && (forall|j: int|
            0 <= j < i && ((#[trigger] policies[j]).endpoint@ == pair.src@ || policies[j].endpoint@
                == pair.dst@) ==> blank(policies[j].udp_bandwidth@))
    ||| bandwidth == own && forall|j: int|
        0 <= j < policies.len() && ((#[trigger] policies[j]).endpoint@ == pair.src@
            || policies[j].endpoint@ == pair.dst@) ==> blank(policies[j].udp_bandwidth@)
}

/// A UDP test of a task: one run of one of its recipes, in the directions whose sender is pinned with
/// the pinned bandwidth, or in the others as the recipe says.
pub open spec fn is_udp_test(
    t: TestSpecView,
    pair: UiPairRef,
    suite: UiSuite,
    task: UiTask,
    req: RunRequest,
    recipes: UiRecipes,
    cfg: ConfigView,
    run: UiUdpProfileView,
    pinned: bool,
) -> bool {
    let chosen = task_recipes(
        recipes.udp@,
        texts(task.recipe_ids@),
        default_udp_recipe(req, cfg),
    );
    &&& is_of_protocol(task, "udp"@)
    &&& exists|r: int|
        0 <= r < chosen.len() && is_udp_run(
            #[trigger] chosen[r],
            default_bandwidths(req, cfg),
            req.udp_streams,
            run,
        )
    &&& t.kinds == seq!["iperf"@]
    &&& t.transports == seq!["udp"@]
    &&& t.direction.len() > 0
    &&& forall|x: Seq<char>| #[trigger]
        t.direction.contains(x) <==> asks_direction(texts(task.directions@), x) && pinned_on(
            req,
            pair,
            x,
        ) == pinned
    &&& t.udp_streams == Some(run.streams)
    &&& !pinned ==> t.udp_profiles == Some(seq![run.profile])
    &&& pinned ==> t.udp_profiles is Some && t.udp_profiles->0.len() == 1
        && t.udp_profiles->0[0].length == run.profile.length && t.udp_profiles->0[0].window
        == run.profile.window && bandwidth_on(
        req.nic_policies@,
        pair,
        run.profile.bandwidth,
        t.udp_profiles->0[0].bandwidth,
    )
    &&& t.tcp_streams is None
    &&& t.tcp_windows is None
    &&& t.origin->0.recipe_id == run.recipe_id
    &&& t.name == display_name(
        suite,
        task,
        if pinned {
            "UDP（按网口策略钉死）"@
        } else {
            "UDP"@
        },
    )
}

/// A ping test of a task, in the directions that the task asks for.
pub open spec fn is_ping_test(t: TestSpecView, suite: UiSuite, task: UiTask) -> bool {
    &&& is_of_protocol(task, "ping"@)
    &&& t.kinds == seq!["ping"@]
    &&& t.transports.len() == 0
    &&& forall|x: Seq<char>| #[trigger]
        t.direction.contains(x) <==> asks_direction(texts(task.directions@), x)
    &&& t.tcp_streams is None
    &&& t.tcp_windows is None
    &&& t.udp_streams is None
    &&& t.udp_profiles is None
    &&& task.recipe_ids@.len() == 0 ==> t.origin->0.recipe_id == "default"@
    &&& task.recipe_ids@.len() > 0 ==> texts(task.recipe_ids@).contains(t.origin->0.recipe_id)
    &&& t.name == display_name(suite, task, "PING"@)
}

/// A test comes from a task on a pair.
pub open spec fn comes_from_task(
    t: TestSpecView,
    rd: Readings,
    req: RunRequest,
    recipes: UiRecipes,
    cfg: ConfigView,
    binding_id: Seq<char>,
    set: UiLinkSet,
    pair: UiPairRef,
    suite: UiSuite,
    task: UiTask,
) -> bool {
    &&& speaks_for_task(t, rd, req, binding_id, set, pair, suite, task)
    &&& {
        ||| exists|run: UiTcpProfileView| #[trigger]
            is_tcp_test(t, suite, task, req, recipes, cfg, run)
        ||| exists|run: UiUdpProfileView, pinned: bool| #[trigger]
            is_udp_test(t, pair, suite, task, req, recipes, cfg, run, pinned)
        ||| is_ping_test(t, suite, task)
    }
}

// ---------------------------------------------------------------------------
// The tests of a task
// ---------------------------------------------------------------------------

proof fn lemma_tcp_task_runs(
    chosen: Seq<crate::model::UiRecipeView>,
    fallback: Seq<u32>,
    n: int,
    run: UiTcpProfileView,
)
    requires
        0 <= n <= chosen.len(),
    ensures
        tcp_task_runs_to(chosen, fallback, n).contains(run) <==> exists|r: int|
            0 <= r < n && is_tcp_run(#[trigger] chosen[r], fallback, run),
    decreases n,
{
    if n > 0 {
        lemma_tcp_task_runs(chosen, fallback, n - 1, run);
        lemma_members_of_both(
            tcp_task_runs_to(chosen, fallback, n - 1),
            crate::suite::tcp_runs(chosen[n - 1], fallback),
            run,
        );
        lemma_tcp_recipe_is_run(chosen[n - 1], fallback, run);
    }
}

proof fn lemma_udp_task_runs(
    chosen: Seq<crate::model::UiRecipeView>,
    bandwidths: Seq<Seq<char>>,
    streams: u32,
    n: int,
    run: UiUdpProfileView,
)
    requires
        0 <= n <= chosen.len(),
    ensures
        udp_task_runs_to(chosen, bandwidths, streams, n).contains(run) <==> exists|r: int|
            0 <= r < n && is_udp_run(#[trigger] chosen[r], bandwidths, streams, run),
    decreases n,
{
    if n > 0 {
        lemma_udp_task_runs(chosen, bandwidths, streams, n - 1, run);
        lemma_members_of_both(
            udp_task_runs_to(chosen, bandwidths, streams, n - 1),
            crate::suite::udp_runs(chosen[n - 1], bandwidths, streams),
            run,
        );
        lemma_udp_recipe_is_run(chosen[n - 1], bandwidths, streams, run);
    }
}

/// The TCP runs of a task are those of its recipes.
pub proof fn lemma_tcp_runs_are_of_the_recipes(
    recipes: UiRecipes,
    task: UiTask,
    req: RunRequest,
    cfg: ConfigView,
    run: UiTcpProfileView,
)
    ensures
        ({
            let chosen = task_recipes(
                recipes.tcp@,
                texts(task.recipe_ids@),
                default_tcp_recipe(req, cfg),
            );
            tcp_task_runs(recipes, task, req, cfg).contains(run) <==> exists|r: int|
                0 <= r < chosen.len() && is_tcp_run(
                    #[trigger] chosen[r],
                    nonzero(req.tcp_streams@),
                    run,
                )
        }),
{
    let chosen = task_recipes(
        recipes.tcp@,
        texts(task.recipe_ids@),
        default_tcp_recipe(req, cfg),
    );
    lemma_tcp_task_runs(chosen, nonzero(req.tcp_streams@), chosen.len() as int, run);
}

/// The UDP runs of a task are those of its recipes.
pub proof fn lemma_udp_runs_are_of_the_recipes(
    recipes: UiRecipes,
    task: UiTask,
    req: RunRequest,
    cfg: ConfigView,
    run: UiUdpProfileView,
)
    ensures
        ({
            let chosen = task_recipes(
                recipes.udp@,
                texts(task.recipe_ids@),
                default_udp_recipe(req, cfg),
            );
            udp_task_runs(recipes, task, req, cfg).contains(run) <==> exists|r: int|
                0 <= r < chosen.len() && is_udp_run(
                    #[trigger] chosen[r],
                    default_bandwidths(req, cfg),
                    req.udp_streams,
                    run,
                )
        }),
{
    let chosen = task_recipes(
        recipes.udp@,
        texts(task.recipe_ids@),
        default_udp_recipe(req, cfg),
    );
    lemma_udp_task_runs(
        chosen,
        default_bandwidths(req, cfg),
        req.udp_streams,
        chosen.len() as int,
        run,
    );
}

proof fn lemma_bandwidth_on(
    policies: Seq<NicPolicySelection>,
    pair: UiPairRef,
    own: Seq<char>,
    i: int,
)
    requires
        0 <= i <= policies.len(),
        forall|j: int|
            0 <= j < i && ((#[trigger] policies[j]).endpoint@ == pair.src@ || policies[j].endpoint@
                == pair.dst@) ==> blank(policies[j].udp_bandwidth@),
    ensures
        bandwidth_on(
            policies,
            pair,
            own,
            fixed_bandwidth(policies, pair.src@, pair.dst@, own, i),
        ),
    decreases policies.len() - i,
{
    if i < policies.len() {
        if (policies[i].endpoint@ == pair.src@ || policies[i].endpoint@ == pair.dst@) && !blank(
            policies[i].udp_bandwidth@,
        ) {
            assert(policies[i].endpoint@ == pair.src@ || policies[i].endpoint@ == pair.dst@);
        } else {
            lemma_bandwidth_on(policies, pair, own, i + 1);
        }
    }
}

proof fn lemma_udp_run_tests_come_from_the_task(
    rd: Readings,
    pair: UiPairRef,
    suite: UiSuite,
    task: UiTask,
    req: RunRequest,
    binding_id: Seq<char>,
    set: UiLinkSet,
    recipes: UiRecipes,
    cfg: ConfigView,
    i: int,
    j: int,
)
    requires
        fits(task),
        1 <= req.duration <= 86_400,
        task_protocol(task) == Some("udp"@),
        0 <= i < udp_task_runs(recipes, task, req, cfg).len(),
        0 <= j < udp_run_tests(
            rd,
            pair,
            suite,
            task,
            req,
            binding_id,
            set,
            udp_task_runs(recipes, task, req, cfg),
            i,
        ).len(),
    ensures
        ({
            let runs = udp_task_runs(recipes, task, req, cfg);
            let t = with_wifi_targets(
                udp_run_tests(rd, pair, suite, task, req, binding_id, set, runs, i)[j],
                rd,
                req,
                pair.src@,
                pair.dst@,
            );
            &&& speaks_for_task(t, rd, req, binding_id, set, pair, suite, task)
            &&& exists|pinned: bool| #[trigger]
                is_udp_test(t, pair, suite, task, req, recipes, cfg, runs[i], pinned)
        }),
{
    let runs = udp_task_runs(recipes, task, req, cfg);
    let run = runs[i];
    assert(runs.contains(run));
    lemma_udp_runs_are_of_the_recipes(recipes, task, req, cfg, run);
    lemma_protocol_is_the_one_said(task, "udp"@);
    let raw = texts(task.directions@);
    let dirs = directions_meant(raw);
    let (sp, dp) = (endpoint_pinned(req, pair.src@), endpoint_pinned(req, pair.dst@));
    assert(sp == is_pinned(req.nic_policies@, pair.src@));
    assert(dp == is_pinned(req.nic_policies@, pair.dst@));
    lemma_directions_where(dirs, sp, dp, true, dirs.len() as int);
    lemma_directions_where(dirs, sp, dp, false, dirs.len() as int);
    assert(dirs.take(dirs.len() as int) =~= dirs);
    let fixed_dirs = directions_where(dirs, sp, dp, true);
    let free_dirs = directions_where(dirs, sp, dp, false);
    let tests = udp_run_tests(rd, pair, suite, task, req, binding_id, set, runs, i);
    let plain = tests[j];
    let pinned = fixed_dirs.len() > 0 && !shape_repeats(runs, i) && j == 0;
    let t = with_wifi_targets(plain, rd, req, pair.src@, pair.dst@);
    reveal_strlit("udp");
    reveal_strlit("ping");
    assert("udp"@.len() == 3 && "ping"@.len() == 4);
    lemma_bandwidth_on(req.nic_policies@, pair, run.profile.bandwidth, 0);
    if pinned {
        lemma_test_speaks_for_its_task(
            rd,
            pair,
            suite,
            task,
            req,
            binding_id,
            set,
            "udp"@,
            fixed_dirs,
            "UDP（按网口策略钉死）"@,
            run.recipe_id,
            plain,
        );
    } else {
        lemma_test_speaks_for_its_task(
            rd,
            pair,
            suite,
            task,
            req,
            binding_id,
            set,
            "udp"@,
            free_dirs,
            "UDP"@,
            run.recipe_id,
            plain,
        );
    }
    assert forall|x: Seq<char>| #[trigger]
        t.direction.contains(x) <==> asks_direction(raw, x) && pinned_on(req, pair, x)
            == pinned by {
        lemma_directions_are_those_asked_for(raw, x);
        assert(directions_where(dirs, sp, dp, pinned).contains(x) <==> dirs.contains(x)
            && direction_pinned(x, sp, dp) == pinned);
    }
    assert(is_udp_test(t, pair, suite, task, req, recipes, cfg, run, pinned));
}

proof fn lemma_udp_tests_come_from_runs(
    rd: Readings,
    pair: UiPairRef,
    suite: UiSuite,
    task: UiTask,
    req: RunRequest,
    binding_id: Seq<char>,
    set: UiLinkSet,
    runs: Seq<UiUdpProfileView>,
    n: int,
    j: int,
)
    requires
        0 <= n <= runs.len(),
        0 <= j < udp_run_tests_to(rd, pair, suite, task, req, binding_id, set, runs, n).len(),
    ensures
        exists|i: int|
            0 <= i < n && (#[trigger] udp_run_tests(
                rd,
                pair,
                suite,
                task,
                req,
                binding_id,
                set,
                runs,
                i,
            )).contains(
                udp_run_tests_to(rd, pair, suite, task, req, binding_id, set, runs, n)[j],
            ),
    decreases n,
{
    if n > 0 {
        let before = udp_run_tests_to(rd, pair, suite, task, req, binding_id, set, runs, n - 1);
        let more = udp_run_tests(rd, pair, suite, task, req, binding_id, set, runs, n - 1);
        let all = udp_run_tests_to(rd, pair, suite, task, req, binding_id, set, runs, n);
        assert(all == before + more);
        if j < before.len() {
            lemma_udp_tests_come_from_runs(
                rd,
                pair,
                suite,
                task,
                req,
                binding_id,
                set,
                runs,
                n - 1,
                j,
            );
            assert(all[j] == before[j]);
        } else {
            assert(all[j] == more[j - before.len()]);
            assert(udp_run_tests(
                rd,
                pair,
                suite,
                task,
                req,
                binding_id,
                set,
                runs,
                n - 1,
            ).contains(all[j]));
        }
    }
}

/// Every test that a task comes to on a pair comes from it: it runs as long as the task says, else as
/// the request says, and is held to what the task says.
pub proof fn lemma_tests_of_a_task_come_from_it(
    rd: Readings,
    pair: UiPairRef,
    suite: UiSuite,
    task: UiTask,
    req: RunRequest,
    binding_id: Seq<char>,
    set: UiLinkSet,
    recipes: UiRecipes,
    cfg: ConfigView,
    j: int,
)
    requires
        fits(task),
        1 <= req.duration <= 86_400,
        0 <= j < task_tests(rd, pair, suite, task, req, binding_id, set, recipes, cfg).len(),
    ensures
        comes_from_task(
            with_wifi_targets(
                task_tests(rd, pair, suite, task, req, binding_id, set, recipes, cfg)[j],
                rd,
                req,
                pair.src@,
                pair.dst@,
            ),
            rd,
            req,
            recipes,
            cfg,
            binding_id,
            set,
            pair,
            suite,
            task,
        ),
{
    let plain = task_tests(rd, pair, suite, task, req, binding_id, set, recipes, cfg)[j];
    let t = with_wifi_targets(plain, rd, req, pair.src@, pair.dst@);
    let raw = texts(task.directions@);
    reveal_strlit("tcp");
    reveal_strlit("udp");
    reveal_strlit("ping");
    assert("tcp"@[0] == 't' && "udp"@[0] == 'u' && "ping"@.len() == 4);
    assert forall|x: Seq<char>| #[trigger]
        directions_meant(raw).contains(x) <==> asks_direction(raw, x) by {
        lemma_directions_are_those_asked_for(raw, x);
    }
    let protocol = task_protocol(task)->0;
    lemma_protocol_is_the_one_said(task, protocol);
    if protocol == "tcp"@ {
        let runs = tcp_task_runs(recipes, task, req, cfg);
        let run = runs[j];
        assert(runs.contains(run));
        lemma_tcp_runs_are_of_the_recipes(recipes, task, req, cfg, run);
        lemma_test_speaks_for_its_task(
            rd,
            pair,
            suite,
            task,
            req,
            binding_id,
            set,
            "tcp"@,
            directions_meant(raw),
            "TCP -P "@ + decimal(run.streams as nat),
            run.recipe_id,
            plain,
        );
        assert(is_tcp_test(t, suite, task, req, recipes, cfg, run));
    } else if protocol == "udp"@ {
        let runs = udp_task_runs(recipes, task, req, cfg);
        lemma_udp_tests_come_from_runs(
            rd,
            pair,
            suite,
            task,
            req,
            binding_id,
            set,
            runs,
            runs.len() as int,
            j,
        );
        let i = choose|i: int|
            0 <= i < runs.len() && (#[trigger] udp_run_tests(
                rd,
                pair,
                suite,
                task,
                req,
                binding_id,
                set,
                runs,
                i,
            )).contains(plain);
        let tests = udp_run_tests(rd, pair, suite, task, req, binding_id, set, runs, i);
        let m = choose|m: int| 0 <= m < tests.len() && tests[m] == plain;
        lemma_udp_run_tests_come_from_the_task(
            rd,
            pair,
            suite,
            task,
            req,
            binding_id,
            set,
            recipes,
            cfg,
            i,
            m,
        );
    } else {
        let ids = ping_recipe_ids(task);
        lemma_test_speaks_for_its_task(
            rd,
            pair,
            suite,
            task,
            req,
            binding_id,
            set,
            "ping"@,
            directions_meant(raw),
            "PING"@,
            ids[j],
            plain,
        );
        if task.recipe_ids@.len() > 0 {
            assert(texts(task.recipe_ids@)[j] == ids[j]);
        }
        assert(is_ping_test(t, suite, task));
    }
}

// ---------------------------------------------------------------------------
// The tests of a plan
// ---------------------------------------------------------------------------

/// A binding binds a pair of a set: all of them, or those that it names.
pub open spec fn takes_pair(binding: UiBinding, pair: UiPairRef) -> bool {
    binding.pair_ids@.len() == 0 || texts(binding.pair_ids@).contains(pair.id@)
}

/// A test comes from a binding: from a task of its suite on a pair of its link set.
pub open spec fn comes_from_binding(
    t: TestSpecView,
    rd: Readings,
    req: RunRequest,
    plan: UiPlan,
    cfg: ConfigView,
    binding: UiBinding,
) -> bool {
    exists|set: UiLinkSet, pair: UiPairRef, suite: UiSuite, task: UiTask|
        plan.link_sets@.contains(set) && set.id@ == binding.link_set_id@
            && set.pair_refs@.contains(pair) && takes_pair(binding, pair) && plan.suites@.contains(
            suite,
        ) && suite.id@ == binding.suite_id@ && suite.tasks@.contains(task)
            && #[trigger] comes_from_task(
            t,
            rd,
            req,
            plan.recipes,
            cfg,
            binding.id@,
            set,
            pair,
            suite,
            task,
        )
}

/// All tasks of a plan have durations in bounds.
pub open spec fn tasks_fit(plan: UiPlan) -> bool {
    forall|s: int, k: int|
        #![trigger plan.suites@[s].tasks@[k]]
        0 <= s < plan.suites@.len() && 0 <= k < plan.suites@[s].tasks@.len() ==> fits(
            plan.suites@[s].tasks@[k],
        )
}

proof fn lemma_pair_tests_come_from_tasks(
    rd: Readings,
    plan: UiPlan,
    req: RunRequest,
    cfg: ConfigView,
    binding: UiBinding,
    set: UiLinkSet,
    suite: UiSuite,
    pair: UiPairRef,
    n: int,
    j: int,
)
    requires
        forall|k: int| 0 <= k < suite.tasks@.len() ==> fits(#[trigger] suite.tasks@[k]),
        1 <= req.duration <= 86_400,
        0 <= n <= task_order(suite).len(),
        0 <= j < pair_task_tests_to(rd, plan, req, cfg, binding, set, suite, pair, n).len(),
    ensures
        exists|task: UiTask|
            suite.tasks@.contains(task) && #[trigger] comes_from_task(
                pair_task_tests_to(rd, plan, req, cfg, binding, set, suite, pair, n)[j],
                rd,
                req,
                plan.recipes,
                cfg,
                binding.id@,
                set,
                pair,
                suite,
                task,
            ),
    decreases n,
{
    if n > 0 {
        lemma_task_order_in_range(suite, n - 1);
        let k = task_order(suite)[n - 1] as int;
        let task = suite.tasks@[k];
        let before = pair_task_tests_to(rd, plan, req, cfg, binding, set, suite, pair, n - 1);
        let own = task_tests(rd, pair, suite, task, req, binding.id@, set, plan.recipes, cfg);
        let more = all_with_wifi_targets(own, rd, req, pair.src@, pair.dst@);
        let all = pair_task_tests_to(rd, plan, req, cfg, binding, set, suite, pair, n);
        assert(all == before + more);
        if j < before.len() {
            lemma_pair_tests_come_from_tasks(
                rd,
                plan,
                req,
                cfg,
                binding,
                set,
                suite,
                pair,
                n - 1,
                j,
            );
            assert(all[j] == before[j]);
        } else {
            let m = j - before.len();
            assert(all[j] == more[m]);
            lemma_tests_of_a_task_come_from_it(
                rd,
                pair,
                suite,
                task,
                req,
                binding.id@,
                set,
                plan.recipes,
                cfg,
                m,
            );
            assert(suite.tasks@.contains(task));
        }
    }
}

proof fn lemma_places_are_wanted(list: Seq<Seq<char>>, wanted: Seq<Seq<char>>, n: int, k: int)
    requires
        0 <= n <= wanted.len(),
        list.len() <= usize::MAX,
        0 <= k < places_to(list, wanted, n).len(),
    ensures
        places_to(list, wanted, n)[k] < list.len(),
        wanted.contains(list[places_to(list, wanted, n)[k] as int]),
    decreases n,
{
    if n > 0 {
        lemma_place_of(list, wanted[n - 1], 0);
        let before = places_to(list, wanted, n - 1);
        if k < before.len() {
            lemma_places_are_wanted(list, wanted, n - 1, k);
        }
    }
}

proof fn lemma_bound_pair_is_taken(binding: UiBinding, set: UiLinkSet, k: int)
    requires
        0 <= k < bound_pairs(binding, set).len(),
    ensures
        bound_pairs(binding, set)[k] < set.pair_refs@.len(),
        takes_pair(binding, set.pair_refs@[bound_pairs(binding, set)[k] as int]),
{
    lemma_bound_pairs_in_range(binding, set, k);
    assert(set.pair_refs@.len() == set.pair_refs.len());
    if binding.pair_ids@.len() > 0 {
        lemma_places_are_wanted(
            pair_ids(set.pair_refs@),
            texts(binding.pair_ids@),
            binding.pair_ids@.len() as int,
            k,
        );
    }
}

proof fn lemma_bound_tests_come_from_the_binding(
    rd: Readings,
    plan: UiPlan,
    req: RunRequest,
    cfg: ConfigView,
    binding: UiBinding,
    set: UiLinkSet,
    suite: UiSuite,
    n: int,
    j: int,
)
    requires
        forall|k: int| 0 <= k < suite.tasks@.len() ==> fits(#[trigger] suite.tasks@[k]),
        1 <= req.duration <= 86_400,
        0 <= n <= bound_pairs(binding, set).len(),
        plan.link_sets@.contains(set),
        set.id@ == binding.link_set_id@,
        plan.suites@.contains(suite),
        suite.id@ == binding.suite_id@,
        0 <= j < bound_tests_to(rd, plan, req, cfg, binding, set, suite, n).len(),
    ensures
        comes_from_binding(
            bound_tests_to(rd, plan, req, cfg, binding, set, suite, n)[j],
            rd,
            req,
            plan,
            cfg,
            binding,
        ),
    decreases n,
{
    if n > 0 {
        lemma_bound_pair_is_taken(binding, set, n - 1);
        let pair = set.pair_refs@[bound_pairs(binding, set)[n - 1] as int];
        assert(set.pair_refs@.contains(pair));
        let tasks = task_order(suite).len() as int;
        let before = bound_tests_to(rd, plan, req, cfg, binding, set, suite, n - 1);
        let more = pair_task_tests_to(rd, plan, req, cfg, binding, set, suite, pair, tasks);
        let all = bound_tests_to(rd, plan, req, cfg, binding, set, suite, n);
        assert(all == before + more);
        if j < before.len() {
            lemma_bound_tests_come_from_the_binding(
                rd,
                plan,
                req,
                cfg,
                binding,
                set,
                suite,
                n - 1,
                j,
            );
            assert(all[j] == before[j]);
        } else {
            let m = j - before.len();
            assert(all[j] == more[m]);
            lemma_pair_tests_come_from_tasks(
                rd,
                plan,
                req,
                cfg,
                binding,
                set,
                suite,
                pair,
                tasks,
                m,
            );
        }
    }
}

proof fn lemma_binding_tests_come_from_it(
    rd: Readings,
    plan: UiPlan,
    req: RunRequest,
    cfg: ConfigView,
    binding: UiBinding,
    j: int,
)
    requires
        tasks_fit(plan),
        1 <= req.duration <= 86_400,
        0 <= j < binding_tests(rd, plan, req, cfg, binding).len(),
    ensures
        comes_from_binding(
            binding_tests(rd, plan, req, cfg, binding)[j],
            rd,
            req,
            plan,
            cfg,
            binding,
        ),
{
    let set_at = set_index(plan.link_sets@, binding.link_set_id@, 0);
    let suite_at = suite_index(plan.suites@, binding.suite_id@, 0);
    lemma_set_index(plan.link_sets@, binding.link_set_id@, 0);
    lemma_suite_index(plan.suites@, binding.suite_id@, 0);
    let set = plan.link_sets@[set_at];
    let suite = plan.suites@[suite_at];
    assert(plan.link_sets@.contains(set) && plan.suites@.contains(suite));
    assert forall|k: int| 0 <= k < suite.tasks@.len() implies fits(#[trigger] suite.tasks@[k]) by {
        assert(plan.suites@[suite_at].tasks@[k] == suite.tasks@[k]);
    }
    lemma_bound_tests_come_from_the_binding(
        rd,
        plan,
        req,
        cfg,
        binding,
        set,
        suite,
        bound_pairs(binding, set).len() as int,
        j,
    );
}

proof fn lemma_plan_tests_come_from_bindings(
    rd: Readings,
    plan: UiPlan,
    req: RunRequest,
    cfg: ConfigView,
    n: int,
    j: int,
)
    requires
        tasks_fit(plan),
        1 <= req.duration <= 86_400,
        0 <= n <= run_order(plan.bindings@).len(),
        0 <= j < plan_tests_to(rd, plan, req, cfg, n).len(),
    ensures
        exists|b: int|
            0 <= b < plan.bindings@.len() && comes_from_binding(
                plan_tests_to(rd, plan, req, cfg, n)[j],
                rd,
                req,
                plan,
                cfg,
                #[trigger] plan.bindings@[b],
            ),
    decreases n,
{
    if n > 0 {
        assert(plan.bindings@.len() == plan.bindings.len());
        lemma_run_order_to(plan.bindings@, plan.bindings@.len() as int);
        let b = run_order(plan.bindings@)[n - 1] as int;
        let binding = plan.bindings@[b];
        let before = plan_tests_to(rd, plan, req, cfg, n - 1);
        let more = binding_tests(rd, plan, req, cfg, binding);
        let all = plan_tests_to(rd, plan, req, cfg, n);
        assert(all == before + more);
        if j < before.len() {
            lemma_plan_tests_come_from_bindings(rd, plan, req, cfg, n - 1, j);
            assert(all[j] == before[j]);
        } else {
            assert(all[j] == more[j - before.len()]);
            lemma_binding_tests_come_from_it(rd, plan, req, cfg, binding, j - before.len());
            assert(comes_from_binding(all[j], rd, req, plan, cfg, plan.bindings@[b]));
        }
    }
}

proof fn lemma_told_tasks_fit(rd: Readings, plan: UiPlan, suite: UiSuite, i: int, k: int)
    requires
        tasks_told(rd, plan, suite, i) is Ok,
        0 <= i <= k < suite.tasks@.len(),
    ensures
        fits(suite.tasks@[k]),
    decreases k - i,
{
    if i < k {
        lemma_told_tasks_fit(rd, plan, suite, i + 1, k);
    }
}

proof fn lemma_told_suites_fit(rd: Readings, plan: UiPlan, i: int, s: int, k: int)
    requires
        suites_told(rd, plan, i) is Ok,
        0 <= i <= s < plan.suites@.len(),
        0 <= k < plan.suites@[s].tasks@.len(),
    ensures
        fits(plan.suites@[s].tasks@[k]),
    decreases s - i,
{
    if i < s {
        lemma_told_suites_fit(rd, plan, i + 1, s, k);
    } else {
        lemma_told_tasks_fit(rd, plan, plan.suites@[s], 0, k);
    }
}

proof fn lemma_accepted_plan_fits(state: UiState, rd: Readings, req: RunRequest, plan: UiPlan)
    requires
        request_told(state, rd, req) is Ok,
        req.ui_plan == Some(plan),
    ensures
        suites_told(rd, plan, 0) is Ok,
        1 <= req.duration <= 86_400,
{
}

/// Every test of an accepted suite plan comes from a task that one of the bindings binds to its pair:
/// it runs as long as that task says or, where the task says nothing, as the request says, and has
/// all else of the task.
pub proof fn lemma_every_test_comes_from_a_task(
    state: UiState,
    rd: Readings,
    req: RunRequest,
    plan: UiPlan,
    j: int,
)
    requires
        request_told(state, rd, req) is Ok,
        req.ui_plan == Some(plan),
        0 <= j < request_config(state, rd, req).tests.len(),
    ensures
        exists|b: int|
            0 <= b < plan.bindings@.len() && comes_from_binding(
                request_config(state, rd, req).tests[j],
                rd,
                req,
                plan,
                suite_base_config(state, rd, req),
                #[trigger] plan.bindings@[b],
            ),
{
    lemma_accepted_plan_fits(state, rd, req, plan);
    assert forall|s: int, k: int|
        #![trigger plan.suites@[s].tasks@[k]]
        0 <= s < plan.suites@.len() && 0 <= k < plan.suites@[s].tasks@.len() implies fits(
        plan.suites@[s].tasks@[k],
    ) by {
        lemma_told_suites_fit(rd, plan, 0, s, k);
    }
    lemma_plan_tests_come_from_bindings(
        rd,
        plan,
        req,
        suite_base_config(state, rd, req),
        run_order(plan.bindings@).len() as int,
        j,
    );
}

/// A task comes to one TCP test for each run of its recipes, in their order, and to one UDP test for
/// each run and each kind of sender that it has directions for; pinned senders run a length, a window
/// and a number of streams only once.
pub proof fn lemma_every_run_is_a_test(
    rd: Readings,
    pair: UiPairRef,
    suite: UiSuite,
    task: UiTask,
    req: RunRequest,
    binding_id: Seq<char>,
    set: UiLinkSet,
    recipes: UiRecipes,
    cfg: ConfigView,
)
    ensures
        ({
            let all = task_tests(rd, pair, suite, task, req, binding_id, set, recipes, cfg);
            let tcp = tcp_task_runs(recipes, task, req, cfg);
            let udp = udp_task_runs(recipes, task, req, cfg);
            &&& is_of_protocol(task, "tcp"@) ==> all.len() == tcp.len() && forall|i: int|
                0 <= i < tcp.len() ==> (#[trigger] all[i]).tcp_streams == Some(tcp[i].streams)
            &&& is_of_protocol(task, "ping"@) && task.recipe_ids@.len() == 0 ==> all.len() == 1
            &&& is_of_protocol(task, "udp"@) ==> forall|i: int, x: Seq<char>|
                #![trigger udp[i], asks_direction(texts(task.directions@), x)]
                0 <= i < udp.len() && asks_direction(texts(task.directions@), x) && !pinned_on(
                    req,
                    pair,
                    x,
                ) ==> exists|k: int|
                    0 <= k < all.len() && (#[trigger] all[k]).direction.contains(x)
                        && all[k].udp_profiles == Some(seq![udp[i].profile]) && all[k].udp_streams
                        == Some(udp[i].streams)
        }),
{
    reveal_strlit("tcp");
    reveal_strlit("udp");
    reveal_strlit("ping");
    assert("tcp"@[0] == 't' && "udp"@[0] == 'u' && "ping"@.len() == 4);
    lemma_protocol_is_the_one_said(task, "tcp"@);
    lemma_protocol_is_the_one_said(task, "udp"@);
    lemma_protocol_is_the_one_said(task, "ping"@);
    let all = task_tests(rd, pair, suite, task, req, binding_id, set, recipes, cfg);
    let udp = udp_task_runs(recipes, task, req, cfg);
    if is_of_protocol(task, "udp"@) {
        assert forall|i: int, x: Seq<char>|
            #![trigger udp[i], asks_direction(texts(task.directions@), x)]
            0 <= i < udp.len() && asks_direction(texts(task.directions@), x) && !pinned_on(
                req,
                pair,
                x,
            ) implies exists|k: int|
            0 <= k < all.len() && (#[trigger] all[k]).direction.contains(x) && all[k].udp_profiles
                == Some(seq![udp[i].profile]) && all[k].udp_streams == Some(udp[i].streams) by {
            lemma_run_is_tested(
                rd,
                pair,
                suite,
                task,
                req,
                binding_id,
                set,
                udp,
                udp.len() as int,
                i,
                x,
            );
        }
    }
}

proof fn lemma_run_is_tested(
    rd: Readings,
    pair: UiPairRef,
    suite: UiSuite,
    task: UiTask,
    req: RunRequest,
    binding_id: Seq<char>,
    set: UiLinkSet,
    runs: Seq<UiUdpProfileView>,
    n: int,
    i: int,
    x: Seq<char>,
)
    requires
        0 <= i < n <= runs.len(),
        asks_direction(texts(task.directions@), x),
        !pinned_on(req, pair, x),
    ensures
        ({
            let all = udp_run_tests_to(rd, pair, suite, task, req, binding_id, set, runs, n);
            exists|k: int|
                0 <= k < all.len() && (#[trigger] all[k]).direction.contains(x)
                    && all[k].udp_profiles == Some(seq![runs[i].profile]) && all[k].udp_streams
                    == Some(runs[i].streams)
        }),
    decreases n,
{
    let before = udp_run_tests_to(rd, pair, suite, task, req, binding_id, set, runs, n - 1);
    let more = udp_run_tests(rd, pair, suite, task, req, binding_id, set, runs, n - 1);
    let all = udp_run_tests_to(rd, pair, suite, task, req, binding_id, set, runs, n);
    assert(all == before + more);
    if i < n - 1 {
        lemma_run_is_tested(rd, pair, suite, task, req, binding_id, set, runs, n - 1, i, x);
        let k = choose|k: int|
            0 <= k < before.len() && (#[trigger] before[k]).direction.contains(x)
                && before[k].udp_profiles == Some(seq![runs[i].profile]) && before[k].udp_streams
                == Some(runs[i].streams);
        assert(all[k] == before[k]);
    } else {
        let raw = texts(task.directions@);
        let dirs = directions_meant(raw);
        let (sp, dp) = (endpoint_pinned(req, pair.src@), endpoint_pinned(req, pair.dst@));
        assert(sp == is_pinned(req.nic_policies@, pair.src@));
        assert(dp == is_pinned(req.nic_policies@, pair.dst@));
        lemma_directions_are_those_asked_for(raw, x);
        lemma_directions_where(dirs, sp, dp, false, dirs.len() as int);
        assert(dirs.take(dirs.len() as int) =~= dirs);
        assert(directions_where(dirs, sp, dp, false).contains(x));
        let m = more.len() - 1;
        assert(more[m].direction == directions_where(dirs, sp, dp, false));
        assert(all[before.len() + m] == more[m]);
    }
}

/// Whether a test runs the length, the window and the number of streams of a run.
pub open spec fn has_shape(t: TestSpecView, run: UiUdpProfileView) -> bool {
    &&& t.udp_streams == Some(run.streams)
    &&& t.udp_profiles is Some
    &&& t.udp_profiles->0.len() == 1
    &&& t.udp_profiles->0[0].length == run.profile.length
    &&& t.udp_profiles->0[0].window == run.profile.window
}

proof fn lemma_pinned_run_is_tested(
    rd: Readings,
    pair: UiPairRef,
    suite: UiSuite,
    task: UiTask,
    req: RunRequest,
    binding_id: Seq<char>,
    set: UiLinkSet,
    runs: Seq<UiUdpProfileView>,
    n: int,
    i: int,
    x: Seq<char>,
)
    requires
        0 <= i < n <= runs.len(),
        asks_direction(texts(task.directions@), x),
        pinned_on(req, pair, x),
    ensures
        ({
            let all = udp_run_tests_to(rd, pair, suite, task, req, binding_id, set, runs, n);
            exists|k: int|
                0 <= k < all.len() && (#[trigger] all[k]).direction.contains(x) && has_shape(
                    all[k],
                    runs[i],
                )
        }),
    decreases i, n,
{
    let before = udp_run_tests_to(rd, pair, suite, task, req, binding_id, set, runs, n - 1);
    let more = udp_run_tests(rd, pair, suite, task, req, binding_id, set, runs, n - 1);
    let all = udp_run_tests_to(rd, pair, suite, task, req, binding_id, set, runs, n);
    assert(all == before + more);
    if shape_repeats(runs, i) {
        let j = choose|j: int| 0 <= j < i && same_shape(#[trigger] runs[j], runs[i]);
        lemma_pinned_run_is_tested(rd, pair, suite, task, req, binding_id, set, runs, n, j, x);
        let k = choose|k: int|
            0 <= k < all.len() && (#[trigger] all[k]).direction.contains(x) && has_shape(
                all[k],
                runs[j],
            );
        assert(has_shape(all[k], runs[i]));
    } else if i < n - 1 {
        lemma_pinned_run_is_tested(rd, pair, suite, task, req, binding_id, set, runs, n - 1, i, x);
        let k = choose|k: int|
            0 <= k < before.len() && (#[trigger] before[k]).direction.contains(x) && has_shape(
                before[k],
                runs[i],
            );
        assert(all[k] == before[k]);
    } else {
        let raw = texts(task.directions@);
        let dirs = directions_meant(raw);
        let (sp, dp) = (endpoint_pinned(req, pair.src@), endpoint_pinned(req, pair.dst@));
        assert(sp == is_pinned(req.nic_policies@, pair.src@));
        assert(dp == is_pinned(req.nic_policies@, pair.dst@));
        lemma_directions_are_those_asked_for(raw, x);
        lemma_directions_where(dirs, sp, dp, true, dirs.len() as int);
        assert(dirs.take(dirs.len() as int) =~= dirs);
        assert(directions_where(dirs, sp, dp, true).contains(x));
        assert(more[0].direction == directions_where(dirs, sp, dp, true));
        assert(has_shape(more[0], runs[i]));
        assert(all[before.len() as int] == more[0]);
    }
}

proof fn lemma_pinned_test_is_of_a_run(
    rd: Readings,
    pair: UiPairRef,
    suite: UiSuite,
    task: UiTask,
    req: RunRequest,
    binding_id: Seq<char>,
    set: UiLinkSet,
    runs: Seq<UiUdpProfileView>,
    n: int,
    k: int,
    x: Seq<char>,
) -> (i: int)
    requires
        0 <= n <= runs.len(),
        pinned_on(req, pair, x),
        0 <= k < udp_run_tests_to(
            rd,
            pair,
            suite,
            task,
            req,
            binding_id,
            set,
            runs,
            n,
        ).len(),
        udp_run_tests_to(rd, pair, suite, task, req, binding_id, set, runs, n)[k].direction.contains(
            x,
        ),
    ensures
        0 <= i < n,
        has_shape(
            udp_run_tests_to(rd, pair, suite, task, req, binding_id, set, runs, n)[k],
            runs[i],
        ),
        k >= udp_run_tests_to(
            rd,
            pair,
            suite,
            task,
            req,
            binding_id,
            set,
            runs,
            n - 1,
        ).len() ==> i == n - 1 && !shape_repeats(runs, i) && k == udp_run_tests_to(
            rd,
            pair,
            suite,
            task,
            req,
            binding_id,
            set,
            runs,
            n - 1,
        ).len(),
    decreases n,
{
    if n <= 0 {
        0
    } else {
        let before = udp_run_tests_to(rd, pair, suite, task, req, binding_id, set, runs, n - 1);
        let more = udp_run_tests(rd, pair, suite, task, req, binding_id, set, runs, n - 1);
        let all = udp_run_tests_to(rd, pair, suite, task, req, binding_id, set, runs, n);
        assert(all == before + more);
        if k < before.len() {
            assert(all[k] == before[k]);
            lemma_pinned_test_is_of_a_run(
                rd,
                pair,
                suite,
                task,
                req,
                binding_id,
                set,
                runs,
                n - 1,
                k,
                x,
            )
        } else {
            assert(all[k] == more[k - before.len()]);
            let dirs = directions_meant(texts(task.directions@));
            let (sp, dp) = (endpoint_pinned(req, pair.src@), endpoint_pinned(req, pair.dst@));
            assert(sp == is_pinned(req.nic_policies@, pair.src@));
            assert(dp == is_pinned(req.nic_policies@, pair.dst@));
            lemma_directions_where(dirs, sp, dp, false, dirs.len() as int);
            assert(dirs.take(dirs.len() as int) =~= dirs);
            assert(!(directions_where(dirs, sp, dp, false).contains(x)));
            n - 1
        }
    }
}

proof fn lemma_pinned_shapes_differ(
    rd: Readings,
    pair: UiPairRef,
    suite: UiSuite,
    task: UiTask,
    req: RunRequest,
    binding_id: Seq<char>,
    set: UiLinkSet,
    runs: Seq<UiUdpProfileView>,
    n: int,
    k: int,
    l: int,
    run: UiUdpProfileView,
    x: Seq<char>,
)
    requires
        0 <= n <= runs.len(),
        pinned_on(req, pair, x),
        0 <= k < l < udp_run_tests_to(
            rd,
            pair,
            suite,
            task,
            req,
            binding_id,
            set,
            runs,
            n,
        ).len(),
        ({
            let all = udp_run_tests_to(rd, pair, suite, task, req, binding_id, set, runs, n);
            all[k].direction.contains(x) && all[l].direction.contains(x)
        }),
    ensures
        ({
            let all = udp_run_tests_to(rd, pair, suite, task, req, binding_id, set, runs, n);
            !(has_shape(all[k], run) && has_shape(all[l], run))
        }),
    decreases n,
{
    if n > 0 {
        let before = udp_run_tests_to(rd, pair, suite, task, req, binding_id, set, runs, n - 1);
        let more = udp_run_tests(rd, pair, suite, task, req, binding_id, set, runs, n - 1);
        let all = udp_run_tests_to(rd, pair, suite, task, req, binding_id, set, runs, n);
        assert(all == before + more);
        if l < before.len() {
            assert(all[k] == before[k] && all[l] == before[l]);
            lemma_pinned_shapes_differ(
                rd,
                pair,
                suite,
                task,
                req,
                binding_id,
                set,
                runs,
                n - 1,
                k,
                l,
                run,
                x,
            );
        } else {
            let b = lemma_pinned_test_is_of_a_run(
                rd,
                pair,
                suite,
                task,
                req,
                binding_id,
                set,
                runs,
                n,
                l,
                x,
            );
            assert(k < before.len());
            assert(all[k] == before[k]);
            let a = lemma_pinned_test_is_of_a_run(
                rd,
                pair,
                suite,
                task,
                req,
                binding_id,
                set,
                runs,
                n - 1,
                k,
                x,
            );
            if has_shape(all[k], run) && has_shape(all[l], run) {
                assert(same_shape(runs[a], runs[b]));
                assert(shape_repeats(runs, b));
            }
        }
    }
}

/// A direction whose sender is pinned runs every length, window and number of streams of the recipes,
/// and each of them once.
pub proof fn lemma_pinned_senders_run_each_shape_once(
    rd: Readings,
    pair: UiPairRef,
    suite: UiSuite,
    task: UiTask,
    req: RunRequest,
    binding_id: Seq<char>,
    set: UiLinkSet,
    recipes: UiRecipes,
    cfg: ConfigView,
    i: int,
    x: Seq<char>,
)
    requires
        is_of_protocol(task, "udp"@),
        0 <= i < udp_task_runs(recipes, task, req, cfg).len(),
        asks_direction(texts(task.directions@), x),
        pinned_on(req, pair, x),
    ensures
        ({
            let all = task_tests(rd, pair, suite, task, req, binding_id, set, recipes, cfg);
            let run = udp_task_runs(recipes, task, req, cfg)[i];
            &&& exists|k: int|
                0 <= k < all.len() && (#[trigger] all[k]).direction.contains(x) && has_shape(
                    all[k],
                    run,
                )
            &&& forall|k: int, l: int|
                0 <= k < l < all.len() && (#[trigger] all[k]).direction.contains(x) && (
                #[trigger] all[l]).direction.contains(x) ==> !(has_shape(all[k], run) && has_shape(
                    all[l],
                    run,
                ))
        }),
{
    reveal_strlit("tcp");
    reveal_strlit("udp");
    reveal_strlit("ping");
    assert("tcp"@[0] == 't' && "udp"@[0] == 'u' && "ping"@.len() == 4);
    lemma_protocol_is_the_one_said(task, "udp"@);
    let udp = udp_task_runs(recipes, task, req, cfg);
    let n = udp.len() as int;
    let all = task_tests(rd, pair, suite, task, req, binding_id, set, recipes, cfg);
    lemma_pinned_run_is_tested(rd, pair, suite, task, req, binding_id, set, udp, n, i, x);
    assert forall|k: int, l: int|
        0 <= k < l < all.len() && (#[trigger] all[k]).direction.contains(x) && (
        #[trigger] all[l]).direction.contains(x) implies !(has_shape(all[k], udp[i]) && has_shape(
        all[l],
        udp[i],
    )) by {
        lemma_pinned_shapes_differ(
            rd,
            pair,
            suite,
            task,
            req,
            binding_id,
            set,
            udp,
            n,
            k,
            l,
            udp[i],
            x,
        );
    }
}

/// A test is named by its suite, its task and what it runs, leaving out what has no name.
pub proof fn lemma_name_is_made_of_parts(suite: UiSuite, task: UiTask, label: Seq<char>)
    requires
        label.len() > 0,
    ensures
        ({
            let name = display_name(suite, task, label);
            let (s, k) = (trimmed(suite.name@), trimmed(task.name@));
            &&& s.len() > 0 && k.len() > 0 ==> name == s + " · "@ + k + " · "@ + label
            &&& s.len() > 0 && k.len() == 0 ==> name == s + " · "@ + label
            &&& s.len() == 0 && k.len() > 0 ==> name == k + " · "@ + label
            &&& s.len() == 0 && k.len() == 0 ==> name == label
        }),
{
    reveal_with_fuel(joined_to, 4);
    let parts = name_parts(suite, task, label);
    let (s, k) = (trimmed(suite.name@), trimmed(task.name@));
    if s.len() > 0 && k.len() > 0 {
        assert(parts =~= seq![s, k, label]);
    } else if s.len() > 0 {
        assert(parts =~= seq![s, label]);
    } else if k.len() > 0 {
        assert(parts =~= seq![k, label]);
    } else {
        assert(parts =~= seq![label]);
    }
}

} // verus!
