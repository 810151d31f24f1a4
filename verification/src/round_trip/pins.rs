//! The UDP loads of a matrix, as importing the configuration that it compiles to gives them back.
use vstd::prelude::*;
use vstd::string::*;
use crate::config::{Config, NicProfile, UdpProfileView};
use crate::import::{bandwidth_pinned, finish_to, import_to, pins, TcpGroupOutView, UdpGroupOutView};
use crate::model::{NicPolicySelection, PairSelection, RunRequest, UiState};
use crate::plan::{base_config, profile_of_policy, profiles_to, sweeps_of};
use crate::readings::Readings;
use crate::round_trip::rows::{all_ends_spelled, lemma_sound, rows_differ};
use crate::round_trip::settings::{
    lemma_known_endpoint, lemma_policies_sound, lemma_profiles_to, policies_sound, profiles_given,
};
use crate::round_trip::tcp::numbers_known;
use crate::round_trip::udp::{
    default_loads_complete, lemma_matrix_default_udp, lemma_matrix_udp, lemma_rows_ready,
    lemma_udp_groups_accepted, numbers_run_udp, pins_agree, row_runs_udp, swept_directions,
};
use crate::suite_plan::request_config;
use crate::text::{
    alike, begins, blank, cut, find_char, lemma_find_char, lemma_trim_idempotent, lowered,
    occurs_at, texts, views,
};
use crate::validate::{endpoint_known, pinned_endpoints, pinned_to};
use crate::validate_plan::request_told;

verus! {

/// Whether a policy that is about an endpoint up to the case of letters is about that endpoint.
pub open spec fn told_apart(policies: Seq<NicPolicySelection>, endpoint: Seq<char>) -> bool {
    forall|p: int|
        0 <= p < policies.len() && alike((#[trigger] policies[p]).endpoint@, endpoint)
            ==> policies[p].endpoint@ == endpoint
}

/// Whether no policy is about an end of a row but for the case of letters.
pub open spec fn ends_told_apart(
    policies: Seq<NicPolicySelection>,
    pairs: Seq<PairSelection>,
) -> bool {
    forall|r: int|
        0 <= r < pairs.len() ==> told_apart(policies, (#[trigger] pairs[r]).src@) && told_apart(
            policies,
            pairs[r].dst@,
        )
}

proof fn lemma_pinned_to(policies: Seq<NicPolicySelection>, n: int, endpoint: Seq<char>)
    requires
        0 <= n <= policies.len(),
    ensures
        pinned_to(policies, n).contains(endpoint) <==> exists|p: int|
            0 <= p < n && (#[trigger] policies[p]).endpoint@ == endpoint && !blank(
                policies[p].udp_bandwidth@,
            ),
    decreases n,
{
    if n > 0 {
        lemma_pinned_to(policies, n - 1, endpoint);
        let before = pinned_to(policies, n - 1);
        let after = pinned_to(policies, n);
        if before.contains(endpoint) {
            let k = choose|k: int| 0 <= k < before.len() && before[k] == endpoint;
            assert(after[k] == endpoint);
        }
        if !blank(policies[n - 1].udp_bandwidth@) {
            assert(after[before.len() as int] == policies[n - 1].endpoint@);
        }
        if after.contains(endpoint) && !before.contains(endpoint) {
            let k = choose|k: int| 0 <= k < after.len() && after[k] == endpoint;
            assert(k == before.len());
        }
    }
}

/// Texts that are alike part by part are alike.
proof fn lemma_alike_parts(
    a: Seq<char>,
    b: Seq<char>,
    mid: Seq<char>,
    c: Seq<char>,
    d: Seq<char>,
)
    requires
        alike(a, c),
        alike(b, d),
    ensures
        alike(a + mid + b, c + mid + d),
{
    assert(lowered(a + mid + b) =~= lowered(a) + lowered(mid) + lowered(b));
    assert(lowered(c + mid + d) =~= lowered(c) + lowered(mid) + lowered(d));
}

/// A configuration fixes the bandwidth of an endpoint whose bandwidth a policy fixes.
proof fn lemma_pinned_is_configured(
    state: UiState,
    rd: Readings,
    policies: Seq<NicPolicySelection>,
    profiles: Seq<NicProfile>,
    endpoint: Seq<char>,
)
    requires
        policies_sound(state, policies),
        profiles_given(profiles, rd, policies),
        pinned_endpoints(policies).contains(endpoint),
    ensures
        bandwidth_pinned(profiles, endpoint),
{
    let n = policies.len() as int;
    lemma_pinned_to(policies, n, endpoint);
    let p = choose|p: int|
        0 <= p < n && (#[trigger] policies[p]).endpoint@ == endpoint && !blank(
            policies[p].udp_bandwidth@,
        );
    assert(endpoint_known(state, policies[p].endpoint@));
    assert(profile_of_policy(rd, policies[p]) is Some);
    let profile = profile_of_policy(rd, policies[p])->0;
    lemma_profiles_to(rd, policies, n);
    let k = choose|k: int|
        0 <= k < profiles_to(rd, policies, n).len() && #[trigger] profiles_to(rd, policies, n)[k]
            == profile;
    assert(profiles[k]@ == views(profiles)[k]);
    lemma_trim_idempotent(policies[p].udp_bandwidth@);
    let (host, rest) = cut(endpoint, ':')->0;
    assert(pins(profiles[k], host, rest.skip("NAME="@.len() as int)));
}

/// A policy fixes the bandwidth of an endpoint whose bandwidth the configuration fixes.
proof fn lemma_configured_is_pinned(
    state: UiState,
    rd: Readings,
    policies: Seq<NicPolicySelection>,
    profiles: Seq<NicProfile>,
    endpoint: Seq<char>,
)
    requires
        policies_sound(state, policies),
        profiles_given(profiles, rd, policies),
        told_apart(policies, endpoint),
        bandwidth_pinned(profiles, endpoint),
    ensures
        pinned_endpoints(policies).contains(endpoint),
{
    let n = policies.len() as int;
    let (host, rest) = cut(endpoint, ':')->0;
    let name = rest.skip("NAME="@.len() as int);
    let i = choose|i: int| 0 <= i < profiles.len() && pins(#[trigger] profiles[i], host, name);
    lemma_profiles_to(rd, policies, n);
    assert(profiles[i]@ == views(profiles)[i]);
    let p = choose|p: int|
        0 <= p < n && profile_of_policy(rd, #[trigger] policies[p]) == Some(
            profiles_to(rd, policies, n)[i],
        );
    assert(endpoint_known(state, policies[p].endpoint@));
    lemma_known_endpoint(state, rd, policies[p]);
    lemma_parts(endpoint, host, rest);
    lemma_alike_parts(profiles[i].host@, profiles[i].name@, ":NAME="@, host, name);
    assert(alike(policies[p].endpoint@, endpoint));
    assert(!blank(policies[p].udp_bandwidth@));
    lemma_pinned_to(policies, n, endpoint);
}

/// An endpoint by name is put together from its parts.
proof fn lemma_parts(endpoint: Seq<char>, host: Seq<char>, rest: Seq<char>)
    requires
        cut(endpoint, ':') == Some((host, rest)),
        begins(rest, "NAME="@),
    ensures
        endpoint == host + ":NAME="@ + rest.skip("NAME="@.len() as int),
{
    reveal_strlit("NAME=");
    reveal_strlit(":NAME=");
    let k = find_char(endpoint, ':', 0);
    lemma_find_char(endpoint, ':', 0);
    assert(occurs_at(rest, "NAME="@, 0));
    assert(rest.subrange(0, 5) == "NAME="@);
    assert(":NAME="@ =~= seq![':'] + "NAME="@);
    assert(endpoint =~= endpoint.take(k) + seq![endpoint[k]] + rest);
    assert(rest =~= rest.subrange(0, 5) + rest.skip(5));
}

proof fn lemma_pins_agree(
    state: UiState,
    rd: Readings,
    req: RunRequest,
    cfg: Config,
)
    requires
        policies_sound(state, req.nic_policies@),
        ends_told_apart(req.nic_policies@, req.pairs@),
        req.ui_plan is None,
        cfg@ == request_config(state, rd, req),
    ensures
        forall|r: int|
            0 <= r < req.pairs@.len() ==> pins_agree(
                cfg,
                #[trigger] req.pairs@[r],
                sweeps_of(req, base_config(state, rd, req)),
            ),
{
    let policies = req.nic_policies@;
    let profiles = cfg.link_profiles.by_nic@;
    let sweeps = sweeps_of(req, base_config(state, rd, req));
    assert(cfg@.link_profiles.by_nic == views(profiles));
    assert(profiles_given(profiles, rd, policies));
    assert(sweeps.pinned_senders == pinned_endpoints(policies));
    assert forall|r: int| 0 <= r < req.pairs@.len() implies pins_agree(
        cfg,
        #[trigger] req.pairs@[r],
        sweeps,
    ) by {
        let pair = req.pairs@[r];
        if bandwidth_pinned(profiles, pair.src@) {
            lemma_configured_is_pinned(state, rd, policies, profiles, pair.src@);
        }
        if bandwidth_pinned(profiles, pair.dst@) {
            lemma_configured_is_pinned(state, rd, policies, profiles, pair.dst@);
        }
        if pinned_endpoints(policies).contains(pair.src@) {
            lemma_pinned_is_configured(state, rd, policies, profiles, pair.src@);
        }
        if pinned_endpoints(policies).contains(pair.dst@) {
            lemma_pinned_is_configured(state, rd, policies, profiles, pair.dst@);
        }
    }
}

/// Importing what a checked matrix compiles to runs the same UDP loads: a row with a direction whose
/// bandwidth is not fixed gets groups that run the loads and numbers of streams that its own groups
/// run, and no others. This is so where the default loads can be told from their axes and no policy
/// is about an end of a row but for the case of letters.
pub proof fn lemma_import_restores_udp(
    state: UiState,
    rd: Readings,
    req: RunRequest,
    cfg: Config,
    default_udp: UdpGroupOutView,
    default_tcp: TcpGroupOutView,
    i: int,
    load: UdpProfileView,
    streams: u32,
)
    requires
        request_told(state, rd, req) is Ok,
        req.ui_plan is None,
        rows_differ(req.pairs@),
        all_ends_spelled(rd, req.pairs@),
        ends_told_apart(req.nic_policies@, req.pairs@),
        cfg@ == request_config(state, rd, req),
        default_loads_complete(state, rd, req),
        0 <= i < req.pairs@.len(),
        texts(req.pairs@[i].transports@).contains("udp"@),
        swept_directions(req.pairs@[i], sweeps_of(req, base_config(state, rd, req))).len() > 0,
    ensures
        ({
            let st = import_to(rd, cfg, default_udp, default_tcp, cfg.tests@.len() as int);
            let pairs = finish_to(st.rows, default_tcp, st.rows.len() as int).1;
            let sweeps = sweeps_of(req, base_config(state, rd, req));
            &&& numbers_known(st.groups.len(), pairs[i].udp_groups)
            &&& numbers_run_udp(st.groups, default_udp, pairs[i].udp_groups, load, streams)
                <==> row_runs_udp(req.pairs@[i], sweeps, load, streams)
        }),
{
    let sweeps = sweeps_of(req, base_config(state, rd, req));
    lemma_sound(state, rd, req, cfg);
    lemma_policies_sound(state, rd, req);
    lemma_udp_groups_accepted(state, rd, req);
    lemma_pins_agree(state, rd, req, cfg);
    lemma_rows_ready(state, rd, req, cfg);
    lemma_matrix_udp(cfg, rd, req, sweeps, default_udp, default_tcp, i, load, streams);
}

/// Importing what a checked matrix compiles to leaves a row in the default UDP group where it runs
/// nothing over UDP or where the bandwidth of every end that sends is fixed.
pub proof fn lemma_import_keeps_the_default_group(
    state: UiState,
    rd: Readings,
    req: RunRequest,
    cfg: Config,
    default_udp: UdpGroupOutView,
    default_tcp: TcpGroupOutView,
    i: int,
)
    requires
        request_told(state, rd, req) is Ok,
        req.ui_plan is None,
        rows_differ(req.pairs@),
        all_ends_spelled(rd, req.pairs@),
        ends_told_apart(req.nic_policies@, req.pairs@),
        cfg@ == request_config(state, rd, req),
        default_loads_complete(state, rd, req),
        0 <= i < req.pairs@.len(),
        !texts(req.pairs@[i].transports@).contains("udp"@) || swept_directions(
            req.pairs@[i],
            sweeps_of(req, base_config(state, rd, req)),
        ).len() == 0,
    ensures
        ({
            let st = import_to(rd, cfg, default_udp, default_tcp, cfg.tests@.len() as int);
            finish_to(st.rows, default_tcp, st.rows.len() as int).1[i].udp_groups == seq![0usize]
        }),
{
    let sweeps = sweeps_of(req, base_config(state, rd, req));
    lemma_sound(state, rd, req, cfg);
    lemma_policies_sound(state, rd, req);
    lemma_udp_groups_accepted(state, rd, req);
    lemma_pins_agree(state, rd, req, cfg);
    lemma_rows_ready(state, rd, req, cfg);
    lemma_matrix_default_udp(cfg, rd, req, sweeps, default_udp, default_tcp, i);
}

} // verus!
