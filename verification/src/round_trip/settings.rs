//! The settings and the interface policies, as importing the configuration that a request compiles
//! to gives them back.
use vstd::prelude::*;
use crate::config::{Config, NicProfile, TestSpec, TestSpecView};
use crate::console::{
    bootstrap, configured_policy, host_policies_to, policies_of, start_ping_count, start_ping_sizes,
    NicPolicyOutView,
};
use crate::model::{NicPolicySelection, PairSelection, RunRequest, UiState};
use crate::plan::{
    base_config, chosen_groups, matrix_tests_to, pair_tests, ping_overridden, ping_test,
    profile_of_policy, profiles_to, sweeps_of, tcp_group_tests, tcp_tests_to, udp_group_tests,
    udp_tests_to, SweepsView,
};
use crate::protocol::NicInfo;
use crate::rate::{profile_index, profile_matches};
use crate::readings::Readings;
use crate::round_trip::rows::{lemma_tcp_group_tests, row_tests};
use crate::suite_plan::request_config;
use crate::sweep::{cleaned_or, deduped, nonzero};
use crate::text::{alike, find_char, lemma_find_char, lowered, occurs_at, texts, trimmed, views};
use crate::validate::{endpoint_known, nic_named, policies_told, policy_endpoints, rx_target};
use crate::validate_plan::request_told;

verus! {

// ---------------------------------------------------------------------------
// Policies
// ---------------------------------------------------------------------------

/// A policy as a page shows it.
pub open spec fn policy_shown(rd: Readings, policy: NicPolicySelection) -> NicPolicyOutView {
    NicPolicyOutView {
        endpoint: policy.endpoint@,
        rx_target: match rx_target(rd, policy.rx_target@) {
            Ok(target) => target,
            Err(_) => None,
        },
        udp_bandwidth: trimmed(policy.udp_bandwidth@),
        udp_length: trimmed(policy.udp_length@),
    }
}

proof fn lemma_policies_told(
    state: UiState,
    rd: Readings,
    policies: Seq<NicPolicySelection>,
    i: int,
    k: int,
)
    requires
        policies_told(state, rd, policies, i) is Ok,
        0 <= i <= k < policies.len(),
    ensures
        endpoint_known(state, policies[k].endpoint@),
        !policy_endpoints(policies).take(k).contains(policies[k].endpoint@),
    decreases k - i,
{
    if i < k {
        lemma_policies_told(state, rd, policies, i + 1, k);
    }
}

/// Whether policies are about known interfaces, no two about one.
pub open spec fn policies_sound(state: UiState, policies: Seq<NicPolicySelection>) -> bool {
    &&& forall|p: int|
        0 <= p < policies.len() ==> endpoint_known(state, (#[trigger] policies[p]).endpoint@)
    &&& forall|p: int, q: int|
        0 <= p < q < policies.len() ==> (#[trigger] policies[p]).endpoint@ != (
        #[trigger] policies[q]).endpoint@
}

pub(crate) proof fn lemma_policies_sound(state: UiState, rd: Readings, req: RunRequest)
    requires
        request_told(state, rd, req) is Ok,
    ensures
        policies_sound(state, req.nic_policies@),
{
    let policies = req.nic_policies@;
    let ends = policy_endpoints(policies);
    assert(policies_told(state, rd, policies, 0) is Ok);
    assert forall|p: int| 0 <= p < policies.len() implies endpoint_known(
        state,
        (#[trigger] policies[p]).endpoint@,
    ) by {
        lemma_policies_told(state, rd, policies, 0, p);
    }
    assert forall|p: int, q: int| 0 <= p < q < policies.len() implies (#[trigger] policies[p]).endpoint@
        != (#[trigger] policies[q]).endpoint@ by {
        lemma_policies_told(state, rd, policies, 0, q);
        assert(ends.take(q)[p] == policies[p].endpoint@);
    }
}

/// An endpoint that names a known interface is put together from the host and the name.
pub(crate) proof fn lemma_known_endpoint(state: UiState, rd: Readings, policy: NicPolicySelection)
    requires
        endpoint_known(state, policy.endpoint@),
        profile_of_policy(rd, policy) is Some,
    ensures
        ({
            let profile = profile_of_policy(rd, policy)->0;
            &&& policy.endpoint@ == profile.host + ":NAME="@ + profile.name
            &&& profile.host == "master"@ && nic_named(state.master.interfaces@, profile.name)
                || profile.host == "agent"@ && nic_named(state.agent.interfaces@, profile.name)
        }),
{
    reveal_strlit("NAME=");
    reveal_strlit(":NAME=");
    let s = policy.endpoint@;
    let k = find_char(s, ':', 0);
    lemma_find_char(s, ':', 0);
    let rest = s.skip(k + 1);
    let profile = profile_of_policy(rd, policy)->0;
    assert(occurs_at(rest, "NAME="@, 0));
    assert(rest.subrange(0, 5) == "NAME="@);
    assert(":NAME="@ =~= seq![':'] + "NAME="@);
    assert(s =~= profile.host + ":NAME="@ + profile.name) by {
        assert(s =~= s.take(k) + seq![s[k]] + rest);
        assert(rest =~= rest.subrange(0, 5) + rest.skip(5));
    }
}

proof fn lemma_hosts()
    ensures
        lowered("master"@) == "master"@,
        lowered("agent"@) == "agent"@,
        "master"@ != "agent"@,
{
    reveal_strlit("master");
    reveal_strlit("agent");
    assert(lowered("master"@) =~= "master"@);
    assert(lowered("agent"@) =~= "agent"@);
    assert("master"@.len() == 6 && "agent"@.len() == 5);
}

/// Each profile comes from a policy, and each policy that says something makes a profile.
pub(crate) proof fn lemma_profiles_to(rd: Readings, policies: Seq<NicPolicySelection>, n: int)
    requires
        0 <= n <= policies.len(),
    ensures
        forall|k: int|
            0 <= k < profiles_to(rd, policies, n).len() ==> exists|p: int|
                0 <= p < n && profile_of_policy(rd, #[trigger] policies[p]) == Some(
                    #[trigger] profiles_to(rd, policies, n)[k],
                ),
        forall|p: int|
            0 <= p < n && profile_of_policy(rd, #[trigger] policies[p]) is Some ==> exists|k: int|
                0 <= k < profiles_to(rd, policies, n).len() && #[trigger] profiles_to(
                    rd,
                    policies,
                    n,
                )[k] == profile_of_policy(rd, policies[p])->0,
    decreases n,
{
    if n > 0 {
        lemma_profiles_to(rd, policies, n - 1);
        let before = profiles_to(rd, policies, n - 1);
        let after = profiles_to(rd, policies, n);
        let last = profile_of_policy(rd, policies[n - 1]);
        assert forall|k: int| 0 <= k < after.len() implies exists|p: int|
            0 <= p < n && profile_of_policy(rd, #[trigger] policies[p]) == Some(
                #[trigger] after[k],
            ) by {
            if k < before.len() {
                assert(after[k] == before[k]);
                let p = choose|p: int|
                    0 <= p < n - 1 && profile_of_policy(rd, #[trigger] policies[p]) == Some(
                        before[k],
                    );
                assert(profile_of_policy(rd, policies[p]) == Some(after[k]));
            } else {
                assert(profile_of_policy(rd, policies[n - 1]) == Some(after[k]));
            }
        }
        assert forall|p: int| 0 <= p < n && profile_of_policy(rd, #[trigger] policies[p]) is Some
            implies exists|k: int|
            0 <= k < after.len() && #[trigger] after[k] == profile_of_policy(rd, policies[p])->0 by {
            if p < n - 1 {
                let k = choose|k: int|
                    0 <= k < before.len() && #[trigger] before[k] == profile_of_policy(
                        rd,
                        policies[p],
                    )->0;
                assert(after[k] == before[k]);
            } else {
                assert(after[before.len() as int] == last->0);
            }
        }
    }
}

proof fn lemma_profile_index(profiles: Seq<NicProfile>, host: Seq<char>, nic: NicInfo, i: int)
    requires
        0 <= i <= profiles.len(),
    ensures
        i <= profile_index(profiles, host, nic, i) <= profiles.len(),
        profile_index(profiles, host, nic, i) < profiles.len() ==> profile_matches(
            profiles[profile_index(profiles, host, nic, i)],
            host,
            nic,
        ),
        forall|k: int|
            i <= k < profile_index(profiles, host, nic, i) ==> !profile_matches(
                #[trigger] profiles[k],
                host,
                nic,
            ),
    decreases profiles.len() - i,
{
    if i < profiles.len() && !profile_matches(profiles[i], host, nic) {
        lemma_profile_index(profiles, host, nic, i + 1);
    }
}

proof fn lemma_host_policies(
    profiles: Seq<NicProfile>,
    host: Seq<char>,
    nics: Seq<NicInfo>,
    n: int,
)
    requires
        0 <= n <= nics.len(),
    ensures
        forall|j: int|
            0 <= j < host_policies_to(profiles, host, nics, n).len() ==> exists|i: int|
                0 <= i < n && configured_policy(profiles, host, #[trigger] nics[i]) == Some(
                    #[trigger] host_policies_to(profiles, host, nics, n)[j],
                ),
        forall|i: int|
            0 <= i < n && configured_policy(profiles, host, #[trigger] nics[i]) is Some
                ==> exists|j: int|
                0 <= j < host_policies_to(profiles, host, nics, n).len()
                    && #[trigger] host_policies_to(profiles, host, nics, n)[j]
                    == configured_policy(profiles, host, nics[i])->0,
    decreases n,
{
    if n > 0 {
        lemma_host_policies(profiles, host, nics, n - 1);
        let before = host_policies_to(profiles, host, nics, n - 1);
        let after = host_policies_to(profiles, host, nics, n);
        let last = configured_policy(profiles, host, nics[n - 1]);
        assert forall|j: int| 0 <= j < after.len() implies exists|i: int|
            0 <= i < n && configured_policy(profiles, host, #[trigger] nics[i]) == Some(
                #[trigger] after[j],
            ) by {
            if j < before.len() {
                assert(after[j] == before[j]);
                let i = choose|i: int|
                    0 <= i < n - 1 && configured_policy(profiles, host, #[trigger] nics[i]) == Some(
                        before[j],
                    );
                assert(configured_policy(profiles, host, nics[i]) == Some(after[j]));
            } else {
                assert(configured_policy(profiles, host, nics[n - 1]) == Some(after[j]));
            }
        }
        assert forall|i: int|
            0 <= i < n && configured_policy(profiles, host, #[trigger] nics[i]) is Some
            implies exists|j: int|
            0 <= j < after.len() && #[trigger] after[j] == configured_policy(
                profiles,
                host,
                nics[i],
            )->0 by {
            if i < n - 1 {
                let j = choose|j: int|
                    0 <= j < before.len() && #[trigger] before[j] == configured_policy(
                        profiles,
                        host,
                        nics[i],
                    )->0;
                assert(after[j] == before[j]);
            } else {
                assert(after[before.len() as int] == last->0);
            }
        }
    }
}

/// Whether profiles are those of the policies of a request.
pub open spec fn profiles_given(
    profiles: Seq<NicProfile>,
    rd: Readings,
    policies: Seq<NicPolicySelection>,
) -> bool {
    views(profiles) == profiles_to(rd, policies, policies.len() as int)
}

/// A profile shows the policy it came from.
proof fn lemma_profile_shown(
    state: UiState,
    rd: Readings,
    policy: NicPolicySelection,
    profiles: Seq<NicProfile>,
    host: Seq<char>,
    nic: NicInfo,
)
    requires
        endpoint_known(state, policy.endpoint@),
        host == "master"@ || host == "agent"@,
        configured_policy(profiles, host, nic) is Some,
        profile_of_policy(rd, policy) == Some(profiles[profile_index(profiles, host, nic, 0)]@),
    ensures
        policy_shown(rd, policy) == configured_policy(profiles, host, nic)->0,
{
    lemma_hosts();
    let at = profile_index(profiles, host, nic, 0);
    lemma_profile_index(profiles, host, nic, 0);
    lemma_known_endpoint(state, rd, policy);
    assert(alike(profiles[at].host@, host));
    assert(profiles[at].host@ == host);
    let shown = configured_policy(profiles, host, nic)->0;
    assert(shown.endpoint == policy.endpoint@);
    assert(shown.udp_bandwidth =~= trimmed(policy.udp_bandwidth@));
    assert(shown.udp_length =~= trimmed(policy.udp_length@));
}

/// What is shown for an interface that a profile is about is the policy it came from.
proof fn lemma_policy_of_nic(
    state: UiState,
    rd: Readings,
    policies: Seq<NicPolicySelection>,
    profiles: Seq<NicProfile>,
    host: Seq<char>,
    nic: NicInfo,
) -> (p: int)
    requires
        policies_sound(state, policies),
        profiles_given(profiles, rd, policies),
        host == "master"@ || host == "agent"@,
        configured_policy(profiles, host, nic) is Some,
    ensures
        0 <= p < policies.len(),
        policy_shown(rd, policies[p]) == configured_policy(profiles, host, nic)->0,
{
    let n = policies.len() as int;
    let at = profile_index(profiles, host, nic, 0);
    lemma_profile_index(profiles, host, nic, 0);
    lemma_profiles_to(rd, policies, n);
    assert(profiles_to(rd, policies, n)[at] == profiles[at]@);
    let p = choose|p: int|
        0 <= p < n && profile_of_policy(rd, #[trigger] policies[p]) == Some(
            profiles_to(rd, policies, n)[at],
        );
    assert(endpoint_known(state, policies[p].endpoint@));
    lemma_profile_shown(state, rd, policies[p], profiles, host, nic);
    p
}

/// A policy that says something is shown for the interface it is about.
proof fn lemma_policy_is_shown(
    state: UiState,
    rd: Readings,
    policies: Seq<NicPolicySelection>,
    profiles: Seq<NicProfile>,
    p: int,
) -> (r: (Seq<char>, NicInfo))
    requires
        policies_sound(state, policies),
        profiles_given(profiles, rd, policies),
        0 <= p < policies.len(),
        profile_of_policy(rd, policies[p]) is Some,
    ensures
        r.0 == "master"@ && state.master.interfaces@.contains(r.1) || r.0 == "agent"@
            && state.agent.interfaces@.contains(r.1),
        configured_policy(profiles, r.0, r.1) == Some(policy_shown(rd, policies[p])),
{
    let n = policies.len() as int;
    lemma_profiles_to(rd, policies, n);
    assert(endpoint_known(state, policies[p].endpoint@));
    lemma_known_endpoint(state, rd, policies[p]);
    let profile = profile_of_policy(rd, policies[p])->0;
    let k = choose|k: int|
        0 <= k < profiles_to(rd, policies, n).len() && #[trigger] profiles_to(rd, policies, n)[k]
            == profile;
    assert(profiles[k]@ == views(profiles)[k]);
    assert(profiles[k]@ == profile);
    let host = profile.host;
    let nics = if host == "master"@ {
        state.master.interfaces@
    } else {
        state.agent.interfaces@
    };
    assert(nic_named(nics, profile.name)) by {
        lemma_hosts();
    }
    let i = choose|i: int| 0 <= i < nics.len() && (#[trigger] nics[i]).name@ == profile.name;
    assert(profile_matches(profiles[k], host, nics[i]));
    lemma_profile_index(profiles, host, nics[i], 0);
    assert(configured_policy(profiles, host, nics[i]) is Some);
    let q = lemma_policy_of_nic(state, rd, policies, profiles, host, nics[i]);
    assert(policies[q].endpoint@ == policies[p].endpoint@) by {
        assert(policy_shown(rd, policies[q]).endpoint == policies[q].endpoint@);
    }
    assert(p == q);
    (host, nics[i])
}

proof fn lemma_policy_is_listed(
    state: UiState,
    rd: Readings,
    policies: Seq<NicPolicySelection>,
    profiles: Seq<NicProfile>,
    p: int,
)
    requires
        policies_sound(state, policies),
        profiles_given(profiles, rd, policies),
        0 <= p < policies.len(),
        profile_of_policy(rd, policies[p]) is Some,
    ensures
        policies_of(profiles, state.master, state.agent).contains(policy_shown(rd, policies[p])),
{
    let (host, nic) = lemma_policy_is_shown(state, rd, policies, profiles, p);
    let masters = state.master.interfaces@;
    let agents = state.agent.interfaces@;
    let first = host_policies_to(profiles, "master"@, masters, masters.len() as int);
    let second = host_policies_to(profiles, "agent"@, agents, agents.len() as int);
    let all = policies_of(profiles, state.master, state.agent);
    let shown = policy_shown(rd, policies[p]);
    if host == "master"@ && masters.contains(nic) {
        lemma_host_policies(profiles, "master"@, masters, masters.len() as int);
        let i = choose|i: int| 0 <= i < masters.len() && masters[i] == nic;
        assert(configured_policy(profiles, "master"@, masters[i]) is Some);
        let j = choose|j: int| 0 <= j < first.len() && #[trigger] first[j] == shown;
        assert(all[j] == first[j]);
    } else {
        lemma_host_policies(profiles, "agent"@, agents, agents.len() as int);
        let i = choose|i: int| 0 <= i < agents.len() && agents[i] == nic;
        assert(configured_policy(profiles, "agent"@, agents[i]) is Some);
        let j = choose|j: int| 0 <= j < second.len() && #[trigger] second[j] == shown;
        assert(all[first.len() + j] == second[j]);
    }
}

/// Every policy of an accepted request that says something is shown again after its configuration is
/// imported on the same hosts.
pub proof fn lemma_import_restores_policies(
    state: UiState,
    rd: Readings,
    req: RunRequest,
    cfg: Config,
    p: int,
)
    requires
        request_told(state, rd, req) is Ok,
        cfg@ == request_config(state, rd, req),
        0 <= p < req.nic_policies@.len(),
        profile_of_policy(rd, req.nic_policies@[p]) is Some,
    ensures
        policies_of(cfg.link_profiles.by_nic@, state.master, state.agent).contains(
            policy_shown(rd, req.nic_policies@[p]),
        ),
{
    lemma_policies_sound(state, rd, req);
    let policies = req.nic_policies@;
    let profiles = cfg.link_profiles.by_nic@;
    assert(cfg@.link_profiles.by_nic == views(profiles));
    assert(profiles_given(profiles, rd, policies));
    lemma_policy_is_listed(state, rd, policies, profiles, p);
}

/// Importing the configuration of an accepted request on the same hosts shows no policy that the
/// request does not have.
pub proof fn lemma_import_adds_no_policy(
    state: UiState,
    rd: Readings,
    req: RunRequest,
    cfg: Config,
    j: int,
)
    requires
        request_told(state, rd, req) is Ok,
        cfg@ == request_config(state, rd, req),
        0 <= j < policies_of(cfg.link_profiles.by_nic@, state.master, state.agent).len(),
    ensures
        exists|p: int|
            0 <= p < req.nic_policies@.len() && policy_shown(rd, #[trigger] req.nic_policies@[p])
                == policies_of(cfg.link_profiles.by_nic@, state.master, state.agent)[j],
{
    lemma_policies_sound(state, rd, req);
    let policies = req.nic_policies@;
    let profiles = cfg.link_profiles.by_nic@;
    assert(cfg@.link_profiles.by_nic == views(profiles));
    assert(profiles_given(profiles, rd, policies));
    let all = policies_of(profiles, state.master, state.agent);
    let masters = state.master.interfaces@;
    let agents = state.agent.interfaces@;
    let first = host_policies_to(profiles, "master"@, masters, masters.len() as int);
    let second = host_policies_to(profiles, "agent"@, agents, agents.len() as int);
    lemma_host_policies(profiles, "master"@, masters, masters.len() as int);
    lemma_host_policies(profiles, "agent"@, agents, agents.len() as int);
    if j < first.len() {
        assert(all[j] == first[j]);
        let i = choose|i: int|
            0 <= i < masters.len() && configured_policy(profiles, "master"@, #[trigger] masters[i])
                == Some(first[j]);
        let p = lemma_policy_of_nic(state, rd, policies, profiles, "master"@, masters[i]);
        assert(policy_shown(rd, policies[p]) == all[j]);
    } else {
        let k = j - first.len();
        assert(all[j] == second[k]);
        let i = choose|i: int|
            0 <= i < agents.len() && configured_policy(profiles, "agent"@, #[trigger] agents[i])
                == Some(second[k]);
        let p = lemma_policy_of_nic(state, rd, policies, profiles, "agent"@, agents[i]);
        assert(policy_shown(rd, policies[p]) == all[j]);
    }
}

// ---------------------------------------------------------------------------
// Settings
// ---------------------------------------------------------------------------

/// How often the tests of a request ping, where it says so.
pub open spec fn ping_count_given(req: RunRequest) -> Option<u32> {
    if req.ping_count > 0 {
        Some(req.ping_count)
    } else {
        None
    }
}

/// The payload sizes that the tests of a request ping with, where it gives any.
pub open spec fn ping_sizes_given(req: RunRequest) -> Option<Seq<u32>> {
    let sizes = deduped(nonzero(req.ping_payload_sizes@));
    if sizes.len() > 0 {
        Some(sizes)
    } else {
        None
    }
}

/// Whether a row pings.
pub open spec fn row_pings(pair: PairSelection) -> bool {
    texts(pair.transports@).contains("ping"@)
}

/// Whether one of the first `n` rows pings.
pub open spec fn some_row_pings(pairs: Seq<PairSelection>, n: int) -> bool {
    exists|i: int| 0 <= i < n && row_pings(#[trigger] pairs[i])
}

/// Whether a test says nothing of pings.
spec fn says_no_ping(t: TestSpecView) -> bool {
    t.ping_count is None && t.ping_payload_sizes is None
}

/// Whether a test pings as the request says.
spec fn pings_as(t: TestSpecView, req: RunRequest) -> bool {
    t.ping_count == ping_count_given(req) && t.ping_payload_sizes == ping_sizes_given(req)
}

proof fn lemma_tcp_pings(
    rd: Readings,
    idx: usize,
    pair: PairSelection,
    sweeps: SweepsView,
    n: int,
)
    requires
        0 <= n <= chosen_groups(pair.tcp_groups@).len(),
    ensures
        forall|j: int|
            0 <= j < tcp_tests_to(rd, idx, pair, sweeps, n).len() ==> says_no_ping(
                #[trigger] tcp_tests_to(rd, idx, pair, sweeps, n)[j],
            ),
    decreases n,
{
    if n > 0 {
        lemma_tcp_pings(rd, idx, pair, sweeps, n - 1);
        let before = tcp_tests_to(rd, idx, pair, sweeps, n - 1);
        let group = chosen_groups(pair.tcp_groups@)[n - 1];
        let steps = crate::plan::group_at(sweeps.tcp_groups, group).stream_steps;
        lemma_tcp_group_tests(rd, idx, pair, sweeps, group, steps.len() as int);
        let more = tcp_group_tests(rd, idx, pair, sweeps, group);
        let all = tcp_tests_to(rd, idx, pair, sweeps, n);
        assert(all == before + more);
        assert forall|j: int| 0 <= j < all.len() implies says_no_ping(#[trigger] all[j]) by {
            if j < before.len() {
                assert(all[j] == before[j]);
            } else {
                assert(all[j] == more[j - before.len()]);
            }
        }
    }
}

proof fn lemma_udp_pings(
    rd: Readings,
    idx: usize,
    pair: PairSelection,
    req: RunRequest,
    sweeps: SweepsView,
    n: int,
)
    requires
        0 <= n <= chosen_groups(pair.udp_groups@).len(),
    ensures
        forall|j: int|
            0 <= j < udp_tests_to(rd, idx, pair, req, sweeps, n).len() ==> says_no_ping(
                #[trigger] udp_tests_to(rd, idx, pair, req, sweeps, n)[j],
            ),
    decreases n,
{
    if n > 0 {
        lemma_udp_pings(rd, idx, pair, req, sweeps, n - 1);
        let before = udp_tests_to(rd, idx, pair, req, sweeps, n - 1);
        let group = chosen_groups(pair.udp_groups@)[n - 1];
        let more = udp_group_tests(rd, idx, pair, req, sweeps, group);
        let all = udp_tests_to(rd, idx, pair, req, sweeps, n);
        assert(all == before + more);
        assert forall|j: int| 0 <= j < all.len() implies says_no_ping(#[trigger] all[j]) by {
            if j < before.len() {
                assert(all[j] == before[j]);
            } else {
                assert(all[j] == more[j - before.len()]);
            }
        }
    }
}

/// The tests of a row ping as the request says, and one of them does where the row pings.
proof fn lemma_row_pings(rd: Readings, req: RunRequest, sweeps: SweepsView, n: int)
    requires
        sweeps.ping_sizes == deduped(nonzero(req.ping_payload_sizes@)),
    ensures
        forall|j: int|
            0 <= j < row_tests(rd, req, sweeps, n).len() ==> {
                let t = #[trigger] row_tests(rd, req, sweeps, n)[j];
                says_no_ping(t) || row_pings(req.pairs@[n]) && pings_as(t, req)
            },
        row_pings(req.pairs@[n]) ==> row_tests(rd, req, sweeps, n).len() > 0 && pings_as(
            row_tests(rd, req, sweeps, n).last(),
            req,
        ),
{
    let pair = req.pairs@[n];
    let idx = n as usize;
    let transports = texts(pair.transports@);
    let tcp = if transports.contains("tcp"@) {
        tcp_tests_to(rd, idx, pair, sweeps, chosen_groups(pair.tcp_groups@).len() as int)
    } else {
        Seq::empty()
    };
    let udp = if transports.contains("udp"@) {
        udp_tests_to(rd, idx, pair, req, sweeps, chosen_groups(pair.udp_groups@).len() as int)
    } else {
        Seq::empty()
    };
    let ping = if transports.contains("ping"@) {
        seq![ping_test(rd, idx, pair, req, sweeps)]
    } else {
        Seq::empty()
    };
    lemma_tcp_pings(rd, idx, pair, sweeps, chosen_groups(pair.tcp_groups@).len() as int);
    lemma_udp_pings(rd, idx, pair, req, sweeps, chosen_groups(pair.udp_groups@).len() as int);
    let plain = pair_tests(rd, idx, pair, req, sweeps);
    assert(plain == tcp + udp + ping);
    let all = row_tests(rd, req, sweeps, n);
    assert forall|j: int| 0 <= j < all.len() implies {
        let t = #[trigger] all[j];
        says_no_ping(t) || row_pings(pair) && pings_as(t, req)
    } by {
        assert(all[j].ping_count == plain[j].ping_count);
        assert(all[j].ping_payload_sizes == plain[j].ping_payload_sizes);
        if j < tcp.len() {
            assert(plain[j] == tcp[j]);
        } else if j < tcp.len() + udp.len() {
            assert(plain[j] == udp[j - tcp.len()]);
        } else {
            assert(plain[j] == ping[j - tcp.len() - udp.len()]);
        }
    }
    if row_pings(pair) {
        let last = plain.len() - 1;
        assert(plain[last] == ping[0]);
        assert(all[last].ping_count == plain[last].ping_count);
        assert(all[last].ping_payload_sizes == plain[last].ping_payload_sizes);
    }
}

/// The tests of the first `n` rows ping as the request says, and one of them does where one of the
/// rows pings.
proof fn lemma_matrix_pings(rd: Readings, req: RunRequest, sweeps: SweepsView, n: int)
    requires
        0 <= n <= req.pairs@.len(),
        sweeps.ping_sizes == deduped(nonzero(req.ping_payload_sizes@)),
    ensures
        forall|j: int|
            0 <= j < matrix_tests_to(rd, req, sweeps, n).len() ==> {
                let t = #[trigger] matrix_tests_to(rd, req, sweeps, n)[j];
                says_no_ping(t) || some_row_pings(req.pairs@, n) && pings_as(t, req)
            },
        some_row_pings(req.pairs@, n) ==> exists|j: int|
            0 <= j < matrix_tests_to(rd, req, sweeps, n).len() && pings_as(
                #[trigger] matrix_tests_to(rd, req, sweeps, n)[j],
                req,
            ),
    decreases n,
{
    if n > 0 {
        lemma_matrix_pings(rd, req, sweeps, n - 1);
        lemma_row_pings(rd, req, sweeps, n - 1);
        let before = matrix_tests_to(rd, req, sweeps, n - 1);
        let more = row_tests(rd, req, sweeps, n - 1);
        let all = matrix_tests_to(rd, req, sweeps, n);
        let pairs = req.pairs@;
        assert(all == before + more);
        assert(some_row_pings(pairs, n - 1) ==> some_row_pings(pairs, n));
        assert(row_pings(pairs[n - 1]) ==> some_row_pings(pairs, n));
        assert forall|j: int| 0 <= j < all.len() implies {
            let t = #[trigger] all[j];
            says_no_ping(t) || some_row_pings(pairs, n) && pings_as(t, req)
        } by {
            if j < before.len() {
                assert(all[j] == before[j]);
            } else {
                assert(all[j] == more[j - before.len()]);
            }
        }
        if some_row_pings(pairs, n) {
            if row_pings(pairs[n - 1]) {
                assert(all[all.len() - 1] == more.last());
                assert(pings_as(all[all.len() - 1], req));
            } else {
                let i = choose|i: int| 0 <= i < n && row_pings(#[trigger] pairs[i]);
                assert(0 <= i < n - 1);
                let j = choose|j: int| 0 <= j < before.len() && pings_as(#[trigger] before[j], req);
                assert(all[j] == before[j]);
            }
        }
    }
}

/// The count that pings start with is the one that some test gives, where the tests that give one
/// agree.
proof fn lemma_start_ping_count(tests: Seq<TestSpec>, own: u32, count: u32, i: int)
    requires
        0 <= i <= tests.len(),
        forall|k: int|
            i <= k < tests.len() ==> (#[trigger] tests[k]).ping_count is None
                || tests[k].ping_count == Some(count),
        count > 0,
    ensures
        start_ping_count(tests, own, i) == if exists|k: int|
            i <= k < tests.len() && (#[trigger] tests[k]).ping_count == Some(count) {
            count
        } else {
            own
        },
    decreases tests.len() - i,
{
    if i < tests.len() && tests[i].ping_count is None {
        lemma_start_ping_count(tests, own, count, i + 1);
    }
}

proof fn lemma_no_ping_count(tests: Seq<TestSpec>, own: u32, i: int)
    requires
        0 <= i <= tests.len(),
        forall|k: int| i <= k < tests.len() ==> (#[trigger] tests[k]).ping_count is None,
    ensures
        start_ping_count(tests, own, i) == own,
    decreases tests.len() - i,
{
    if i < tests.len() {
        lemma_no_ping_count(tests, own, i + 1);
    }
}

/// The sizes that pings start with are those that some test gives, where the tests that give any
/// agree.
proof fn lemma_start_ping_sizes(tests: Seq<TestSpec>, own: Seq<u32>, sizes: Seq<u32>, i: int)
    requires
        0 <= i <= tests.len(),
        forall|k: int|
            i <= k < tests.len() ==> (#[trigger] tests[k])@.ping_payload_sizes is None
                || tests[k]@.ping_payload_sizes == Some(sizes),
        sizes.len() > 0,
    ensures
        start_ping_sizes(tests, own, i) == if exists|k: int|
            i <= k < tests.len() && (#[trigger] tests[k])@.ping_payload_sizes == Some(sizes) {
            sizes
        } else {
            own
        },
    decreases tests.len() - i,
{
    if i < tests.len() && tests[i]@.ping_payload_sizes is None {
        lemma_start_ping_sizes(tests, own, sizes, i + 1);
    }
}

proof fn lemma_no_ping_sizes(tests: Seq<TestSpec>, own: Seq<u32>, i: int)
    requires
        0 <= i <= tests.len(),
        forall|k: int| i <= k < tests.len() ==> (#[trigger] tests[k])@.ping_payload_sizes is None,
    ensures
        start_ping_sizes(tests, own, i) == own,
    decreases tests.len() - i,
{
    if i < tests.len() {
        lemma_no_ping_sizes(tests, own, i + 1);
    }
}

proof fn lemma_duration_given(state: UiState, rd: Readings, req: RunRequest)
    requires
        request_told(state, rd, req) is Ok,
    ensures
        1 <= req.duration <= 86_400,
{
}

/// Whether a configuration shows the duration, the windows, the screenshots and the limits on
/// round-trip times of a matrix; where a row pings, also how often and with which sizes, as far as the
/// request says; where none does, these as configured.
pub open spec fn settings_restored(
    state: UiState,
    req: RunRequest,
    cfg: Config,
    agent_host: Seq<char>,
) -> bool {
    let settings = bootstrap(cfg, agent_host);
    let pings = some_row_pings(req.pairs@, req.pairs@.len() as int);
    &&& settings.duration == req.duration
    &&& settings.screenshot == req.screenshot
    &&& settings.tcp_windows == cleaned_or(
        texts(req.tcp_windows@),
        state.cfg@.iperf.tcp_windows,
    )
    &&& cfg@.ping == ping_overridden(state.cfg@.ping, req)
    &&& settings.ping_count == if pings && req.ping_count > 0 {
        req.ping_count
    } else {
        state.cfg.ping.count
    }
    &&& settings.ping_payload_sizes == match ping_sizes_given(req) {
        Some(sizes) => if pings {
            sizes
        } else {
            state.cfg.ping.payload_sizes@
        },
        None => state.cfg.ping.payload_sizes@,
    }
}

/// Importing the configuration of an accepted matrix shows the settings that it was compiled with.
pub proof fn lemma_import_restores_settings(
    state: UiState,
    rd: Readings,
    req: RunRequest,
    cfg: Config,
    agent_host: Seq<char>,
)
    requires
        request_told(state, rd, req) is Ok,
        req.ui_plan is None,
        cfg@ == request_config(state, rd, req),
    ensures
        settings_restored(state, req, cfg, agent_host),
{
    lemma_duration_given(state, rd, req);
    lemma_settings(state, rd, req, cfg, agent_host);
}

proof fn lemma_settings(
    state: UiState,
    rd: Readings,
    req: RunRequest,
    cfg: Config,
    agent_host: Seq<char>,
)
    requires
        1 <= req.duration <= 86_400,
        req.ui_plan is None,
        cfg@ == request_config(state, rd, req),
    ensures
        settings_restored(state, req, cfg, agent_host),
{
    let base = base_config(state, rd, req);
    let sweeps = sweeps_of(req, base);
    let n = req.pairs@.len() as int;
    let all = matrix_tests_to(rd, req, sweeps, n);
    lemma_matrix_pings(rd, req, sweeps, n);
    let tests = cfg.tests@;
    let pings = some_row_pings(req.pairs@, n);
    assert(cfg@.tests == views(tests));
    assert(all == views(tests));
    assert forall|k: int| 0 <= k < tests.len() implies (#[trigger] tests[k])@ == all[k] by {}
    if pings {
        let j = choose|j: int| 0 <= j < all.len() && pings_as(#[trigger] all[j], req);
        assert(tests[j]@ == all[j]);
    }
    assert(cfg@.ping.count == cfg.ping.count);
    assert(cfg@.ping.payload_sizes == cfg.ping.payload_sizes@);
    if req.ping_count > 0 {
        lemma_start_ping_count(tests, cfg.ping.count, req.ping_count, 0);
    } else {
        lemma_no_ping_count(tests, cfg.ping.count, 0);
    }
    match ping_sizes_given(req) {
        Some(sizes) => {
            lemma_start_ping_sizes(tests, cfg.ping.payload_sizes@, sizes, 0);
        },
        None => {
            lemma_no_ping_sizes(tests, cfg.ping.payload_sizes@, 0);
        },
    }
}

} // verus!
