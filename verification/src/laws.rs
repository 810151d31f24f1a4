//! What holds of every request and of every plan.
use vstd::prelude::*;
use vstd::string::*;
use crate::config::{ConfigView, TestSpecView};
use crate::model::{
    NicPolicySelection, RunRequest, UiBinding, UiLinkSet, UiPairRef, UiPlan, UiState, UiSuite,
};
use crate::plan::{
    all_with_wifi_targets, base_config, matrix_tests_to, pair_tests, profile_of_policy, profiles_to,
    sweeps_of,
};
use crate::readings::Readings;
use crate::round_trip::rows::{
    is_row_test, lemma_matrix_prefix, lemma_pair_tests, lemma_rows_are_plain, lemma_steps_given,
    row_tests, tests_before,
};
use crate::suite::{task_tests, udp_run_tests, udp_run_tests_to, UiUdpProfileView};
use crate::suite_plan::{
    binding_tests, bound_pairs, bound_tests_to, lemma_place_of, lemma_run_order_to, others_to,
    pair_task_tests_to, places_to, plan_tests_to, request_config, run_order, suite_base_config,
    task_order,
};
use crate::text::{blank, has, lemma_trim_idempotent, lowered, occurs_at, texts, trimmed};
use crate::validate::{cleaned, cleaned_to};
use crate::validate_plan::{pair_ids, request_told, set_index, suite_index, task_ids};
use crate::wifi::{band_of, WIFI_BAND_24G, WIFI_BAND_5G, WIFI_BAND_6G, WIFI_BAND_UNKNOWN};

verus! {

// ---------------------------------------------------------------------------
// Settings
// ---------------------------------------------------------------------------

/// Whether finished tests are skipped, whether loads are held to the speed of a link and whether
/// screenshots are taken is for the request alone to say; which host is the agent, how it is reached
/// and which addresses are shown is as the console has it. The configuration file has no say in the
/// former, the request none in the latter.
pub proof fn lemma_console_decides(state: UiState, rd: Readings, req: RunRequest)
    ensures
        request_config(state, rd, req).resume == req.resume,
        request_config(state, rd, req).limit_udp_by_link_speed == req.limit_udp_by_link_speed,
        request_config(state, rd, req).screenshot == req.screenshot,
        request_config(state, rd, req).agent_host == state.agent_host@,
        request_config(state, rd, req).agent_port == state.cfg@.agent_port,
        request_config(state, rd, req).agent_token == state.cfg@.agent_token,
        request_config(state, rd, req).ipv4_prefixes == state.cfg@.ipv4_prefixes,
{
}

/// Whether a policy says nothing.
pub open spec fn says_nothing(policy: NicPolicySelection) -> bool {
    blank(policy.rx_target@) && blank(policy.udp_bandwidth@) && blank(policy.udp_length@)
}

/// Policies that say nothing put nothing over what is configured.
pub proof fn lemma_blank_policies_override_nothing(
    state: UiState,
    rd: Readings,
    req: RunRequest,
)
    requires
        forall|i: int|
            0 <= i < req.nic_policies@.len() ==> says_nothing(#[trigger] req.nic_policies@[i]),
    ensures
        request_config(state, rd, req).link_profiles.by_nic.len() == 0,
{
    lemma_blank_profiles(rd, req.nic_policies@, req.nic_policies@.len() as int);
}

proof fn lemma_blank_profiles(rd: Readings, policies: Seq<NicPolicySelection>, n: int)
    requires
        0 <= n <= policies.len(),
        forall|i: int| 0 <= i < policies.len() ==> says_nothing(#[trigger] policies[i]),
    ensures
        profiles_to(rd, policies, n).len() == 0,
    decreases n,
{
    if n > 0 {
        lemma_blank_profiles(rd, policies, n - 1);
        assert(says_nothing(policies[n - 1]));
        assert(trimmed(policies[n - 1].rx_target@).len() == 0);
    }
}

/// A policy that names an interface and gives a length alone is kept.
pub proof fn lemma_lone_length_is_kept(rd: Readings, policy: NicPolicySelection)
    requires
        !blank(policy.udp_length@),
        crate::text::cut(policy.endpoint@, ':') matches Some(parts) && crate::text::begins(
            parts.1,
            "NAME="@,
        ),
    ensures
        profile_of_policy(rd, policy) is Some,
        profile_of_policy(rd, policy)->0.udp_length == Some(trimmed(policy.udp_length@)),
{
}

// ---------------------------------------------------------------------------
// Lists
// ---------------------------------------------------------------------------

proof fn lemma_cleaned_to(raw: Seq<Seq<char>>, n: int)
    requires
        0 <= n <= raw.len(),
    ensures
        forall|i: int|
            0 <= i < cleaned_to(raw, n).len() ==> {
                let text = #[trigger] cleaned_to(raw, n)[i];
                text.len() > 0 && trimmed(text) == text
            },
    decreases n,
{
    if n > 0 {
        lemma_cleaned_to(raw, n - 1);
        lemma_trim_idempotent(raw[n - 1]);
        let before = cleaned_to(raw, n - 1);
        let after = cleaned_to(raw, n);
        assert forall|i: int| 0 <= i < after.len() implies {
            let text = #[trigger] after[i];
            text.len() > 0 && trimmed(text) == text
        } by {
            if i < before.len() {
                assert(after[i] == before[i]);
            }
        }
    }
}

proof fn lemma_clean_stays(list: Seq<Seq<char>>, n: int)
    requires
        0 <= n <= list.len(),
        forall|i: int|
            0 <= i < list.len() ==> (#[trigger] list[i]).len() > 0 && trimmed(list[i]) == list[i],
    ensures
        cleaned_to(list, n) == list.take(n),
    decreases n,
{
    if n > 0 {
        lemma_clean_stays(list, n - 1);
        assert(list[n - 1].len() > 0 && trimmed(list[n - 1]) == list[n - 1]);
        assert(list.take(n) =~= list.take(n - 1).push(list[n - 1]));
    } else {
        assert(list.take(0) =~= Seq::<Seq<char>>::empty());
    }
}

/// Cleaning a list a second time changes nothing.
pub proof fn lemma_cleaning_is_final(raw: Seq<Seq<char>>)
    ensures
        cleaned(cleaned(raw)) == cleaned(raw),
{
    lemma_cleaned_to(raw, raw.len() as int);
    let list = cleaned(raw);
    lemma_clean_stays(list, list.len() as int);
    assert(list.take(list.len() as int) =~= list);
}

// ---------------------------------------------------------------------------
// Accepted requests
// ---------------------------------------------------------------------------

/// An accepted matrix leaves no row out: each makes a test with its ends.
pub proof fn lemma_every_row_makes_a_test(state: UiState, rd: Readings, req: RunRequest, i: int)
    requires
        request_told(state, rd, req) is Ok,
        req.ui_plan is None,
        0 <= i < req.pairs@.len(),
    ensures
        exists|k: int|
            0 <= k < request_config(state, rd, req).tests.len() && (#[trigger] request_config(
                state,
                rd,
                req,
            ).tests[k]).src == req.pairs@[i].src@ && request_config(state, rd, req).tests[k].dst
                == req.pairs@[i].dst@,
{
    let sweeps = sweeps_of(req, base_config(state, rd, req));
    let pair = req.pairs@[i];
    lemma_rows_are_plain(state, rd, req, 0, i);
    lemma_steps_given(state, rd, req);
    lemma_pair_tests(rd, i as usize, pair, req, sweeps);
    lemma_matrix_prefix(rd, req, sweeps, i + 1, req.pairs@.len() as int);
    let plain = pair_tests(rd, i as usize, pair, req, sweeps);
    let own = row_tests(rd, req, sweeps, i);
    assert(is_row_test(plain[0], rd, pair));
    let k = tests_before(rd, req, sweeps, i);
    let some = matrix_tests_to(rd, req, sweeps, i + 1);
    assert(some == matrix_tests_to(rd, req, sweeps, i) + own);
    assert(some[k] == own[0]);
    assert(request_config(state, rd, req).tests[k] == own[0]);
}

/// An accepted matrix always comes to tests.
pub proof fn lemma_accepted_matrix_has_tests(state: UiState, rd: Readings, req: RunRequest)
    requires
        request_told(state, rd, req) is Ok,
        req.ui_plan is None,
    ensures
        request_config(state, rd, req).tests.len() > 0,
{
    lemma_every_row_makes_a_test(state, rd, req, 0);
}

// ---------------------------------------------------------------------------
// Suite plans
// ---------------------------------------------------------------------------

/// Whether a test says which binding, pair, suite and task it comes from, and runs one protocol.
pub open spec fn tells_origin(
    t: TestSpecView,
    binding: UiBinding,
    set: UiLinkSet,
    pair: UiPairRef,
    suite: UiSuite,
) -> bool {
    &&& t.src == pair.src@
    &&& t.dst == pair.dst@
    &&& t.transports.len() + (if t.kinds == seq!["ping"@] {
        1int
    } else {
        0
    }) == 1
    &&& t.origin matches Some(origin) && origin.binding_id == binding.id@ && origin.link_set_id
        == set.id@ && origin.link_set_name == set.name@ && origin.pair_id == pair.id@
        && origin.suite_id == suite.id@ && exists|k: int|
        0 <= k < suite.tasks@.len() && (#[trigger] suite.tasks@[k]).id@ == origin.task_id
}

proof fn lemma_ping_kinds()
    ensures
        seq!["iperf"@] != seq!["ping"@],
{
    reveal_strlit("iperf");
    reveal_strlit("ping");
    assert("iperf"@.len() == 5 && "ping"@.len() == 4);
    assert(seq!["iperf"@][0] == "iperf"@ && seq!["ping"@][0] == "ping"@);
}

proof fn lemma_protocols_differ()
    ensures
        "tcp"@ != "ping"@,
        "udp"@ != "ping"@,
{
    reveal_strlit("tcp");
    reveal_strlit("udp");
    reveal_strlit("ping");
    assert("tcp"@.len() == 3 && "udp"@.len() == 3 && "ping"@.len() == 4);
}

proof fn lemma_udp_runs_tell(
    rd: Readings,
    pair: UiPairRef,
    suite: UiSuite,
    k: int,
    req: RunRequest,
    binding: UiBinding,
    set: UiLinkSet,
    runs: Seq<UiUdpProfileView>,
    n: int,
)
    requires
        0 <= k < suite.tasks@.len(),
    ensures
        ({
            let all = udp_run_tests_to(
                rd,
                pair,
                suite,
                suite.tasks@[k],
                req,
                binding.id@,
                set,
                runs,
                n,
            );
            forall|j: int|
                0 <= j < all.len() ==> tells_origin(#[trigger] all[j], binding, set, pair, suite)
        }),
    decreases n,
{
    lemma_ping_kinds();
    lemma_protocols_differ();
    if n > 0 {
        let task = suite.tasks@[k];
        lemma_udp_runs_tell(rd, pair, suite, k, req, binding, set, runs, n - 1);
        let before = udp_run_tests_to(
            rd,
            pair,
            suite,
            task,
            req,
            binding.id@,
            set,
            runs,
            n - 1,
        );
        let more = udp_run_tests(
            rd,
            pair,
            suite,
            task,
            req,
            binding.id@,
            set,
            runs,
            n - 1,
        );
        let all = udp_run_tests_to(rd, pair, suite, task, req, binding.id@, set, runs, n);
        assert(all == before + more);
        assert forall|j: int| 0 <= j < all.len() implies tells_origin(
            #[trigger] all[j],
            binding,
            set,
            pair,
            suite,
        ) by {
            if j < before.len() {
                assert(all[j] == before[j]);
            } else {
                assert(all[j] == more[j - before.len()]);
                assert(suite.tasks@[k].id@ == task.id@);
            }
        }
    }
}

proof fn lemma_task_tells(
    rd: Readings,
    pair: UiPairRef,
    suite: UiSuite,
    k: int,
    req: RunRequest,
    binding: UiBinding,
    set: UiLinkSet,
    plan: UiPlan,
    cfg: ConfigView,
)
    requires
        0 <= k < suite.tasks@.len(),
    ensures
        ({
            let all = task_tests(
                rd,
                pair,
                suite,
                suite.tasks@[k],
                req,
                binding.id@,
                set,
                plan.recipes,
                cfg,
            );
            forall|j: int|
                0 <= j < all.len() ==> tells_origin(#[trigger] all[j], binding, set, pair, suite)
        }),
{
    lemma_ping_kinds();
    lemma_protocols_differ();
    let task = suite.tasks@[k];
    let runs = crate::suite::udp_task_runs(plan.recipes, task, req, cfg);
    lemma_udp_runs_tell(rd, pair, suite, k, req, binding, set, runs, runs.len() as int);
    let all = task_tests(
        rd,
        pair,
        suite,
        task,
        req,
        binding.id@,
        set,
        plan.recipes,
        cfg,
    );
    assert forall|j: int| 0 <= j < all.len() implies tells_origin(
        #[trigger] all[j],
        binding,
        set,
        pair,
        suite,
    ) by {
        assert(suite.tasks@[k].id@ == task.id@);
    }
}

proof fn lemma_places_in_range(list: Seq<Seq<char>>, wanted: Seq<Seq<char>>, n: int)
    requires
        0 <= n <= wanted.len(),
        list.len() <= usize::MAX,
    ensures
        forall|k: int|
            0 <= k < places_to(list, wanted, n).len() ==> #[trigger] places_to(list, wanted, n)[k]
                < list.len(),
    decreases n,
{
    if n > 0 {
        lemma_places_in_range(list, wanted, n - 1);
        lemma_place_of(list, wanted[n - 1], 0);
        let before = places_to(list, wanted, n - 1);
        let after = places_to(list, wanted, n);
        assert forall|k: int| 0 <= k < after.len() implies #[trigger] after[k] < list.len() by {
            if k < before.len() {
                assert(after[k] == before[k]);
            }
        }
    }
}

proof fn lemma_others_in_range(list: Seq<Seq<char>>, wanted: Seq<Seq<char>>, n: int)
    requires
        0 <= n <= list.len(),
        list.len() <= usize::MAX,
    ensures
        forall|k: int|
            0 <= k < others_to(list, wanted, n).len() ==> #[trigger] others_to(list, wanted, n)[k]
                < list.len(),
    decreases n,
{
    if n > 0 {
        lemma_others_in_range(list, wanted, n - 1);
        let before = others_to(list, wanted, n - 1);
        let after = others_to(list, wanted, n);
        assert forall|k: int| 0 <= k < after.len() implies #[trigger] after[k] < list.len() by {
            if k < before.len() {
                assert(after[k] == before[k]);
            }
        }
    }
}

pub(crate) proof fn lemma_task_order_in_range(suite: UiSuite, k: int)
    requires
        0 <= k < task_order(suite).len(),
    ensures
        task_order(suite)[k] < suite.tasks@.len(),
{
    let ids = task_ids(suite.tasks@);
    let order = texts(suite.order@);
    assert(suite.tasks@.len() == suite.tasks.len());
    if order.len() > 0 {
        lemma_places_in_range(ids, order, order.len() as int);
        lemma_others_in_range(ids, order, ids.len() as int);
        let named = places_to(ids, order, order.len() as int);
        let rest = others_to(ids, order, ids.len() as int);
        if k < named.len() {
            assert(task_order(suite)[k] == named[k]);
        } else {
            assert(task_order(suite)[k] == rest[k - named.len()]);
        }
    }
}

pub(crate) proof fn lemma_bound_pairs_in_range(binding: UiBinding, set: UiLinkSet, k: int)
    requires
        0 <= k < bound_pairs(binding, set).len(),
    ensures
        bound_pairs(binding, set)[k] < set.pair_refs@.len(),
{
    assert(set.pair_refs@.len() == set.pair_refs.len());
    assert(texts(binding.pair_ids@).len() == binding.pair_ids@.len());
    if binding.pair_ids@.len() > 0 {
        lemma_places_in_range(
            pair_ids(set.pair_refs@),
            texts(binding.pair_ids@),
            binding.pair_ids@.len() as int,
        );
    }
}

proof fn lemma_pair_tells(
    rd: Readings,
    plan: UiPlan,
    req: RunRequest,
    cfg: ConfigView,
    binding: UiBinding,
    set: UiLinkSet,
    suite: UiSuite,
    pair: UiPairRef,
    n: int,
)
    requires
        0 <= n <= task_order(suite).len(),
    ensures
        ({
            let all = pair_task_tests_to(rd, plan, req, cfg, binding, set, suite, pair, n);
            forall|j: int|
                0 <= j < all.len() ==> tells_origin(#[trigger] all[j], binding, set, pair, suite)
        }),
    decreases n,
{
    if n > 0 {
        lemma_pair_tells(rd, plan, req, cfg, binding, set, suite, pair, n - 1);
        lemma_task_order_in_range(suite, n - 1);
        let k = task_order(suite)[n - 1] as int;
        lemma_task_tells(rd, pair, suite, k, req, binding, set, plan, cfg);
        let before = pair_task_tests_to(rd, plan, req, cfg, binding, set, suite, pair, n - 1);
        let own = task_tests(
            rd,
            pair,
            suite,
            suite.tasks@[k],
            req,
            binding.id@,
            set,
            plan.recipes,
            cfg,
        );
        let more = all_with_wifi_targets(own, rd, req, pair.src@, pair.dst@);
        let all = pair_task_tests_to(rd, plan, req, cfg, binding, set, suite, pair, n);
        assert(all == before + more);
        assert forall|j: int| 0 <= j < all.len() implies tells_origin(
            #[trigger] all[j],
            binding,
            set,
            pair,
            suite,
        ) by {
            if j < before.len() {
                assert(all[j] == before[j]);
            } else {
                let m = j - before.len();
                assert(all[j] == more[m]);
                assert(tells_origin(own[m], binding, set, pair, suite));
            }
        }
    }
}

/// Whether a test comes from a binding of a plan.
pub open spec fn comes_from(t: TestSpecView, plan: UiPlan, binding: UiBinding) -> bool {
    exists|set: UiLinkSet, pair: UiPairRef, suite: UiSuite|
        plan.link_sets@.contains(set) && set.id@ == binding.link_set_id@
            && set.pair_refs@.contains(pair) && plan.suites@.contains(suite) && suite.id@
            == binding.suite_id@ && #[trigger] tells_origin(t, binding, set, pair, suite)
}

proof fn lemma_bound_tells(
    rd: Readings,
    plan: UiPlan,
    req: RunRequest,
    cfg: ConfigView,
    binding: UiBinding,
    set: UiLinkSet,
    suite: UiSuite,
    n: int,
)
    requires
        0 <= n <= bound_pairs(binding, set).len(),
        plan.link_sets@.contains(set),
        set.id@ == binding.link_set_id@,
        plan.suites@.contains(suite),
        suite.id@ == binding.suite_id@,
    ensures
        ({
            let all = bound_tests_to(rd, plan, req, cfg, binding, set, suite, n);
            forall|j: int| 0 <= j < all.len() ==> comes_from(#[trigger] all[j], plan, binding)
        }),
    decreases n,
{
    if n > 0 {
        lemma_bound_tells(rd, plan, req, cfg, binding, set, suite, n - 1);
        lemma_bound_pairs_in_range(binding, set, n - 1);
        let pair = set.pair_refs@[bound_pairs(binding, set)[n - 1] as int];
        assert(set.pair_refs@.contains(pair));
        let tasks = task_order(suite).len() as int;
        lemma_pair_tells(rd, plan, req, cfg, binding, set, suite, pair, tasks);
        let before = bound_tests_to(rd, plan, req, cfg, binding, set, suite, n - 1);
        let more = pair_task_tests_to(rd, plan, req, cfg, binding, set, suite, pair, tasks);
        let all = bound_tests_to(rd, plan, req, cfg, binding, set, suite, n);
        assert(all == before + more);
        assert forall|j: int| 0 <= j < all.len() implies comes_from(
            #[trigger] all[j],
            plan,
            binding,
        ) by {
            if j < before.len() {
                assert(all[j] == before[j]);
            } else {
                assert(all[j] == more[j - before.len()]);
                assert(tells_origin(all[j], binding, set, pair, suite));
            }
        }
    }
}

pub(crate) proof fn lemma_set_index(sets: Seq<UiLinkSet>, id: Seq<char>, i: int)
    requires
        0 <= i <= sets.len(),
    ensures
        i <= set_index(sets, id, i) <= sets.len(),
        set_index(sets, id, i) < sets.len() ==> sets[set_index(sets, id, i)].id@ == id,
    decreases sets.len() - i,
{
    if i < sets.len() && sets[i].id@ != id {
        lemma_set_index(sets, id, i + 1);
    }
}

pub(crate) proof fn lemma_suite_index(suites: Seq<UiSuite>, id: Seq<char>, i: int)
    requires
        0 <= i <= suites.len(),
    ensures
        i <= suite_index(suites, id, i) <= suites.len(),
        suite_index(suites, id, i) < suites.len() ==> suites[suite_index(suites, id, i)].id@ == id,
    decreases suites.len() - i,
{
    if i < suites.len() && suites[i].id@ != id {
        lemma_suite_index(suites, id, i + 1);
    }
}

proof fn lemma_binding_tells(
    rd: Readings,
    plan: UiPlan,
    req: RunRequest,
    cfg: ConfigView,
    binding: UiBinding,
)
    ensures
        ({
            let all = binding_tests(rd, plan, req, cfg, binding);
            forall|j: int| 0 <= j < all.len() ==> comes_from(#[trigger] all[j], plan, binding)
        }),
{
    let set_at = set_index(plan.link_sets@, binding.link_set_id@, 0);
    let suite_at = suite_index(plan.suites@, binding.suite_id@, 0);
    lemma_set_index(plan.link_sets@, binding.link_set_id@, 0);
    lemma_suite_index(plan.suites@, binding.suite_id@, 0);
    if set_at < plan.link_sets@.len() && suite_at < plan.suites@.len() {
        let set = plan.link_sets@[set_at];
        let suite = plan.suites@[suite_at];
        assert(plan.link_sets@.contains(set) && plan.suites@.contains(suite));
        lemma_bound_tells(
            rd,
            plan,
            req,
            cfg,
            binding,
            set,
            suite,
            bound_pairs(binding, set).len() as int,
        );
    }
}

proof fn lemma_plan_tells(
    rd: Readings,
    plan: UiPlan,
    req: RunRequest,
    cfg: ConfigView,
    n: int,
    j: int,
)
    requires
        0 <= n <= run_order(plan.bindings@).len(),
        0 <= j < plan_tests_to(rd, plan, req, cfg, n).len(),
    ensures
        exists|b: int|
            0 <= b < plan.bindings@.len() && comes_from(
                plan_tests_to(rd, plan, req, cfg, n)[j],
                plan,
                #[trigger] plan.bindings@[b],
            ),
    decreases n,
{
    if n > 0 {
        assert(plan.bindings@.len() == plan.bindings.len());
        lemma_run_order_to(plan.bindings@, plan.bindings@.len() as int);
        let b = run_order(plan.bindings@)[n - 1] as int;
        let binding = plan.bindings@[b];
        lemma_binding_tells(rd, plan, req, cfg, binding);
        let before = plan_tests_to(rd, plan, req, cfg, n - 1);
        let more = binding_tests(rd, plan, req, cfg, binding);
        let all = plan_tests_to(rd, plan, req, cfg, n);
        assert(all == before + more);
        if j < before.len() {
            assert(all[j] == before[j]);
            lemma_plan_tells(rd, plan, req, cfg, n - 1, j);
        } else {
            assert(all[j] == more[j - before.len()]);
            assert(comes_from(all[j], plan, plan.bindings@[b]));
        }
    }
}

/// Every test of a suite plan says which binding, link set, pair, suite and task it comes from, has
/// the ends of that pair and runs one protocol: tasks are never multiplied with each other.
pub proof fn lemma_suite_tests_tell_their_origin(
    state: UiState,
    rd: Readings,
    req: RunRequest,
    plan: UiPlan,
    j: int,
)
    requires
        req.ui_plan == Some(plan),
        0 <= j < request_config(state, rd, req).tests.len(),
    ensures
        exists|b: int|
            0 <= b < plan.bindings@.len() && comes_from(
                request_config(state, rd, req).tests[j],
                plan,
                #[trigger] plan.bindings@[b],
            ),
{
    let base = suite_base_config(state, rd, req);
    lemma_plan_tells(rd, plan, req, base, run_order(plan.bindings@).len() as int, j);
}

// ---------------------------------------------------------------------------
// Wi-Fi bands
// ---------------------------------------------------------------------------

/// The stable name of a band speaks of that band.
pub proof fn lemma_band_names_are_stable(raw: Seq<char>)
    ensures
        band_of(band_of(raw)) == band_of(raw),
{
    reveal_strlit("wifi_2_4g");
    reveal_strlit("wifi_5g");
    reveal_strlit("wifi_6g");
    reveal_strlit("unknown");
    reveal_strlit("2.4");
    reveal_strlit("2_4");
    reveal_strlit("24g");
    reveal_strlit("6");
    reveal_strlit("5");
    let a = WIFI_BAND_24G@;
    let b = WIFI_BAND_5G@;
    let c = WIFI_BAND_6G@;
    let d = WIFI_BAND_UNKNOWN@;
    assert(lowered(a) =~= a);
    assert(lowered(b) =~= b);
    assert(lowered(c) =~= c);
    assert(lowered(d) =~= d);
    assert(a.subrange(5, 8) =~= "2_4"@);
    assert(occurs_at(a, "2_4"@, 5));
    assert(c.subrange(5, 6) =~= "6"@);
    assert(occurs_at(c, "6"@, 5));
    assert(b.subrange(5, 6) =~= "5"@);
    assert(occurs_at(b, "5"@, 5));
    lemma_lacks(b, "2.4"@, '2');
    lemma_lacks(b, "2_4"@, '2');
    lemma_lacks(b, "24g"@, '2');
    lemma_lacks(b, "6"@, '6');
    lemma_lacks(c, "2.4"@, '2');
    lemma_lacks(c, "2_4"@, '2');
    lemma_lacks(c, "24g"@, '2');
    lemma_lacks(d, "2.4"@, '2');
    lemma_lacks(d, "2_4"@, '2');
    lemma_lacks(d, "24g"@, '2');
    lemma_lacks(d, "6"@, '6');
    lemma_lacks(d, "5"@, '5');
}

/// A text without a character holds no text that starts with it.
proof fn lemma_lacks(s: Seq<char>, part: Seq<char>, c: char)
    requires
        part.len() > 0,
        part[0] == c,
        forall|i: int| 0 <= i < s.len() ==> #[trigger] s[i] != c,
    ensures
        !(has(s, part)),
{
    if has(s, part) {
        let i = choose|i: int| occurs_at(s, part, i);
        assert(s.subrange(i, i + part.len())[0] == s[i]);
    }
}

} // verus!
