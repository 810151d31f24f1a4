//! What a request makes of the console's configuration.
use vstd::prelude::*;
use vstd::string::*;
use crate::config::{NicProfileView, UdpProfileView};
use crate::meaning::lists::{
    lemma_cleaning_keeps_what_is_written, lemma_sweep_crosses_its_axes, lists_text, on_axis,
};
use crate::meaning::recipes::written;
use crate::meaning::thresholds::{lemma_threshold_is_read, says_mbps, says_percent};
use crate::model::{NicPolicySelection, RunRequest, UiState};
use crate::number::{Double, INFINITY_BITS};
use crate::plan::{clamped_duration, mbps_in, percent_in, profile_of_policy, profiles_to};
use crate::readings::Readings;
use crate::suite_plan::request_config;
use crate::sweep::{cleaned_or, deduped, nonzero};
use crate::text::{begins, blank, cut, find_char, lemma_find_char, texts, views};
use crate::validate::cleaned;

verus! {

/// A threshold is what the request gives where that is more than zero, else the console's own.
pub open spec fn given_over(own: Double, given: Double, result: Double) -> bool {
    if 0 < given.bits <= INFINITY_BITS {
        result == given
    } else {
        result == own
    }
}

/// A size is what the request gives where that is not zero, else the console's own.
pub open spec fn size_over(own: u32, given: u32, result: u32) -> bool {
    if given == 0 {
        result == own
    } else {
        result == given
    }
}

/// Each threshold and size for pings is what the request gives for it, else the console's own.
pub proof fn lemma_ping_thresholds_are_as_given(state: UiState, rd: Readings, req: RunRequest)
    ensures
        ({
            let (own, ping) = (state.cfg@.ping, request_config(state, rd, req).ping);
            &&& size_over(own.small_max_bytes, req.ping_small_max_bytes, ping.small_max_bytes)
            &&& size_over(own.medium_max_bytes, req.ping_medium_max_bytes, ping.medium_max_bytes)
            &&& given_over(
                own.wired_small_avg_rtt_ms,
                req.ping_wired_small_avg_rtt_ms,
                ping.wired_small_avg_rtt_ms,
            )
            &&& given_over(
                own.wired_medium_avg_rtt_ms,
                req.ping_wired_medium_avg_rtt_ms,
                ping.wired_medium_avg_rtt_ms,
            )
            &&& given_over(
                own.wired_medium_max_rtt_ms,
                req.ping_wired_medium_max_rtt_ms,
                ping.wired_medium_max_rtt_ms,
            )
            &&& given_over(
                own.wired_large_avg_rtt_ms,
                req.ping_wired_large_avg_rtt_ms,
                ping.wired_large_avg_rtt_ms,
            )
            &&& given_over(
                own.wired_large_max_rtt_ms,
                req.ping_wired_large_max_rtt_ms,
                ping.wired_large_max_rtt_ms,
            )
            &&& given_over(
                own.wifi_small_avg_rtt_ms,
                req.ping_wifi_small_avg_rtt_ms,
                ping.wifi_small_avg_rtt_ms,
            )
            &&& given_over(
                own.wifi_small_max_rtt_ms,
                req.ping_wifi_small_max_rtt_ms,
                ping.wifi_small_max_rtt_ms,
            )
            &&& given_over(
                own.wifi_medium_avg_rtt_ms,
                req.ping_wifi_medium_avg_rtt_ms,
                ping.wifi_medium_avg_rtt_ms,
            )
            &&& given_over(
                own.wifi_medium_max_rtt_ms,
                req.ping_wifi_medium_max_rtt_ms,
                ping.wifi_medium_max_rtt_ms,
            )
            &&& given_over(
                own.wifi_large_avg_rtt_ms,
                req.ping_wifi_large_avg_rtt_ms,
                ping.wifi_large_avg_rtt_ms,
            )
            &&& given_over(
                own.wifi_large_max_rtt_ms,
                req.ping_wifi_large_max_rtt_ms,
                ping.wifi_large_max_rtt_ms,
            )
            &&& 0 < req.ping_wired_small_max_rtt_ms.bits <= INFINITY_BITS ==> ping.max_rtt_ms
                == req.ping_wired_small_max_rtt_ms
            &&& !(0 < req.ping_wired_small_max_rtt_ms.bits <= INFINITY_BITS) ==> given_over(
                own.max_rtt_ms,
                req.ping_max_rtt_ms,
                ping.max_rtt_ms,
            )
        }),
{
}

/// A matrix leaves how often and with which sizes the console pings alone; a suite plan sets both
/// where the request gives them.
pub proof fn lemma_pings_are_set_for_suites(state: UiState, rd: Readings, req: RunRequest)
    ensures
        ({
            let (own, ping) = (state.cfg@.ping, request_config(state, rd, req).ping);
            &&& req.ui_plan is None ==> ping.count == own.count && ping.payload_sizes
                == own.payload_sizes
            &&& req.ui_plan is Some && req.ping_count > 0 ==> ping.count == req.ping_count
            &&& req.ui_plan is Some && req.ping_count == 0 ==> ping.count == own.count
            &&& req.ui_plan is Some && req.ping_payload_sizes@.len() > 0 ==> ping.payload_sizes
                == deduped(nonzero(req.ping_payload_sizes@))
            &&& req.ui_plan is Some && req.ping_payload_sizes@.len() == 0 ==> ping.payload_sizes
                == own.payload_sizes
        }),
{
}

/// A configuration runs as long as the request says and against the console's agent, with the
/// switches of the request; what the request has no word for stays the console's own.
pub proof fn lemma_request_sets_the_configuration(state: UiState, rd: Readings, req: RunRequest)
    ensures
        ({
            let (own, cfg) = (state.cfg@, request_config(state, rd, req));
            &&& 1 <= req.duration <= 86_400 ==> cfg.iperf.duration == req.duration
            &&& req.duration == 0 ==> cfg.iperf.duration == 1
            &&& req.duration > 86_400 ==> cfg.iperf.duration == 86_400
            &&& cfg.agent_host == state.agent_host@
            &&& cfg.agent_port == own.agent_port
            &&& cfg.agent_token == own.agent_token
            &&& cfg.ipv4_prefixes == own.ipv4_prefixes
            &&& cfg.require_same_subnet_for_iperf == own.require_same_subnet_for_iperf
            &&& cfg.screenshot == req.screenshot
            &&& cfg.limit_udp_by_link_speed == req.limit_udp_by_link_speed
            &&& cfg.resume == req.resume
            &&& cfg.pairs is None
            &&& cfg.universal_params is None
            &&& cfg.link_profiles.by_role == own.link_profiles.by_role
            &&& cfg.iperf.tcp_windows == cleaned_or(texts(req.tcp_windows@), own.iperf.tcp_windows)
        }),
{
}

/// The common thresholds and the mode are those that the request pins, else the console's own; the
/// ceilings stay.
pub proof fn lemma_common_thresholds_are_as_pinned(state: UiState, rd: Readings, req: RunRequest)
    ensures
        ({
            let own = state.cfg@.iperf.rate_check;
            let rate = request_config(state, rd, req).iperf.rate_check;
            &&& req.global_rate_targets matches Some(targets) ==> rate.targets_mbps == targets
            &&& req.global_rate_targets is None ==> rate.targets_mbps == own.targets_mbps
            &&& req.global_rate_mode matches Some(mode) ==> rate.mode == mode
            &&& req.global_rate_mode is None ==> rate.mode == own.mode
            &&& rate.cpe_path_ceiling_mbps == own.cpe_path_ceiling_mbps
            &&& rate.wifi_payload_ceiling_mbps == own.wifi_payload_ceiling_mbps
            &&& rate.evb_usb_to_eth_target_mbps == own.evb_usb_to_eth_target_mbps
            &&& rate.evb_eth_to_usb_target_mbps == own.evb_eth_to_usb_target_mbps
        }),
{
}

/// The loads are the sweep of the request's bandwidths; without one, those that the request pins, and
/// without any of these the console's own.
pub proof fn lemma_loads_are_as_given(
    state: UiState,
    rd: Readings,
    req: RunRequest,
    load: UdpProfileView,
)
    ensures
        ({
            let own = state.cfg@.iperf.udp_profiles;
            let loads = request_config(state, rd, req).iperf.udp_profiles;
            let given = exists|x: Seq<char>| #[trigger] lists_text(texts(req.udp_bandwidths@), x);
            let pinned = req.udp_profiles is Some && req.udp_profiles->0@.len() > 0;
            &&& given ==> (loads.contains(load) <==> lists_text(
                texts(req.udp_bandwidths@),
                load.bandwidth,
            ) && on_axis(cleaned(texts(req.udp_lengths@)), load.length) && on_axis(
                cleaned(texts(req.udp_windows@)),
                load.window,
            ))
            &&& !given && pinned ==> loads == views(req.udp_profiles->0@)
            &&& !given && !pinned ==> loads == own
        }),
{
    let raw = texts(req.udp_bandwidths@);
    let bandwidths = cleaned(raw);
    lemma_cleaning_keeps_what_is_written(raw, load.bandwidth);
    lemma_sweep_crosses_its_axes(
        bandwidths,
        cleaned(texts(req.udp_lengths@)),
        cleaned(texts(req.udp_windows@)),
        load,
    );
    if exists|x: Seq<char>| #[trigger] lists_text(raw, x) {
        let x = choose|x: Seq<char>| #[trigger] lists_text(raw, x);
        lemma_cleaning_keeps_what_is_written(raw, x);
        assert(bandwidths.contains(x));
    } else if bandwidths.len() > 0 {
        lemma_cleaning_keeps_what_is_written(raw, bandwidths[0]);
        assert(bandwidths.contains(bandwidths[0]));
    }
}

// ---------------------------------------------------------------------------
// Policies
// ---------------------------------------------------------------------------

/// A text is cut at its first separator, which stands in neither the text before it nor the cut.
pub proof fn lemma_cut_is_at_the_first(s: Seq<char>, c: char, a: Seq<char>, b: Seq<char>)
    ensures
        cut(s, c) == Some((a, b)) <==> s == a + seq![c] + b && !a.contains(c),
        cut(s, c) is None <==> !s.contains(c),
{
    lemma_find_char(s, c, 0);
    let k = find_char(s, c, 0);
    if k < s.len() {
        assert(s =~= s.take(k) + seq![c] + s.skip(k + 1));
        assert(!s.take(k).contains(c)) by {
            if s.take(k).contains(c) {
                let i = choose|i: int| 0 <= i < s.take(k).len() && s.take(k)[i] == c;
                assert(s[i] == c);
            }
        }
    }
    if s == a + seq![c] + b && !a.contains(c) {
        assert(s[a.len() as int] == c);
        if k < a.len() {
            assert(a[k] == s[k]);
            assert(a.contains(c));
        }
        assert(k == a.len());
        assert(s.take(k) =~= a);
        assert(s.skip(k + 1) =~= b);
    }
    if s.contains(c) {
        let i = choose|i: int| 0 <= i < s.len() && s[i] == c;
        assert(s[i] == c);
    }
}

/// A policy says something: a threshold, a bandwidth or a length.
pub open spec fn says_something(rd: Readings, policy: NicPolicySelection) -> bool {
    ||| exists|v: Double| #[trigger] says_mbps(rd, policy.rx_target@, v)
    ||| exists|v: Double| #[trigger] says_percent(rd, policy.rx_target@, v)
    ||| !blank(policy.udp_bandwidth@)
    ||| !blank(policy.udp_length@)
}

/// An endpoint names an interface of a host.
pub open spec fn names_interface(endpoint: Seq<char>, host: Seq<char>, name: Seq<char>) -> bool {
    endpoint == host + ":NAME="@ + name && !host.contains(':')
}

/// A profile says of an interface what a policy says of it: the threshold in its own unit, the
/// bandwidth as a bandwidth and the length as a length.
pub open spec fn says_the_same(
    profile: NicProfileView,
    rd: Readings,
    policy: NicPolicySelection,
) -> bool {
    &&& names_interface(policy.endpoint@, profile.host, profile.name)
    &&& profile.ipv4.len() == 0
    &&& forall|v: Double|
        profile.rx_target_mbps == Some(v) <==> #[trigger] says_mbps(rd, policy.rx_target@, v)
    &&& forall|v: Double|
        profile.rx_target_percent == Some(v) <==> #[trigger] says_percent(rd, policy.rx_target@, v)
    &&& profile.udp_bandwidth == written(Some(policy.udp_bandwidth@))
    &&& profile.udp_length == written(Some(policy.udp_length@))
}

/// A policy that says something of an interface becomes a profile that says the same; any other
/// becomes none.
pub proof fn lemma_policy_becomes_its_profile(rd: Readings, policy: NicPolicySelection)
    ensures
        profile_of_policy(rd, policy) matches Some(profile) ==> says_the_same(profile, rd, policy),
        profile_of_policy(rd, policy) is Some <==> says_something(rd, policy) && exists|
            host: Seq<char>,
            name: Seq<char>,
        | #[trigger] names_interface(policy.endpoint@, host, name),
{
    reveal_strlit("NAME=");
    reveal_strlit(":NAME=");
    let endpoint = policy.endpoint@;
    assert forall|v: Double|
        mbps_in(rd, policy.rx_target@) == Some(v) <==> #[trigger] says_mbps(
            rd,
            policy.rx_target@,
            v,
        ) by {
        lemma_threshold_is_read(rd, policy.rx_target@, v);
    }
    assert forall|v: Double|
        percent_in(rd, policy.rx_target@) == Some(v) <==> #[trigger] says_percent(
            rd,
            policy.rx_target@,
            v,
        ) by {
        lemma_threshold_is_read(rd, policy.rx_target@, v);
    }
    if let Some(v) = mbps_in(rd, policy.rx_target@) {
        assert(says_mbps(rd, policy.rx_target@, v));
    }
    if let Some(v) = percent_in(rd, policy.rx_target@) {
        assert(says_percent(rd, policy.rx_target@, v));
    }
    if let Some((host, rest)) = cut(endpoint, ':') {
        lemma_cut_is_at_the_first(endpoint, ':', host, rest);
        if begins(rest, "NAME="@) {
            let name = rest.skip(5);
            assert(rest =~= rest.subrange(0, 5) + name);
            assert(":NAME="@ =~= seq![':'] + "NAME="@);
            assert(endpoint =~= host + ":NAME="@ + name);
            assert(names_interface(endpoint, host, name));
        }
    }
    if exists|host: Seq<char>, name: Seq<char>| #[trigger] names_interface(endpoint, host, name) {
        let (host, name) = choose|host: Seq<char>, name: Seq<char>| #[trigger]
            names_interface(endpoint, host, name);
        let rest = "NAME="@ + name;
        assert(":NAME="@ =~= seq![':'] + "NAME="@);
        assert(endpoint =~= host + seq![':'] + rest);
        lemma_cut_is_at_the_first(endpoint, ':', host, rest);
        assert(rest.subrange(0, 5) =~= "NAME="@);
    }
}

/// The profiles of a configuration are those of the request's policies, in their order.
pub proof fn lemma_policies_become_profiles(state: UiState, rd: Readings, req: RunRequest)
    ensures
        ({
            let by_nic = request_config(state, rd, req).link_profiles.by_nic;
            let policies = req.nic_policies@;
            &&& forall|p: int|
                0 <= p < by_nic.len() ==> exists|i: int|
                    0 <= i < policies.len() && says_the_same(
                        #[trigger] by_nic[p],
                        rd,
                        #[trigger] policies[i],
                    )
            &&& forall|i: int|
                0 <= i < policies.len() && profile_of_policy(rd, #[trigger] policies[i]) is Some
                    ==> by_nic.contains(profile_of_policy(rd, policies[i])->0)
        }),
{
    lemma_profiles_to(rd, req.nic_policies@, req.nic_policies@.len() as int);
}

proof fn lemma_profiles_to(rd: Readings, policies: Seq<NicPolicySelection>, n: int)
    requires
        0 <= n <= policies.len(),
    ensures
        forall|p: int|
            0 <= p < profiles_to(rd, policies, n).len() ==> exists|i: int|
                0 <= i < n && says_the_same(
                    #[trigger] profiles_to(rd, policies, n)[p],
                    rd,
                    #[trigger] policies[i],
                ),
        forall|i: int|
            0 <= i < n && profile_of_policy(rd, #[trigger] policies[i]) is Some ==> profiles_to(
                rd,
                policies,
                n,
            ).contains(profile_of_policy(rd, policies[i])->0),
    decreases n,
{
    if n > 0 {
        lemma_profiles_to(rd, policies, n - 1);
        lemma_policy_becomes_its_profile(rd, policies[n - 1]);
        let (before, after) = (profiles_to(rd, policies, n - 1), profiles_to(rd, policies, n));
        assert forall|p: int| 0 <= p < after.len() implies exists|i: int|
            0 <= i < n && says_the_same(#[trigger] after[p], rd, #[trigger] policies[i]) by {
            if p < before.len() {
                assert(after[p] == before[p]);
                let i = choose|i: int|
                    0 <= i < n - 1 && says_the_same(before[p], rd, #[trigger] policies[i]);
                assert(says_the_same(after[p], rd, policies[i]));
            } else {
                assert(says_the_same(after[p], rd, policies[n - 1]));
            }
        }
        assert forall|i: int|
            0 <= i < n && profile_of_policy(
                rd,
                #[trigger] policies[i],
            ) is Some implies after.contains(profile_of_policy(rd, policies[i])->0) by {
            let x = profile_of_policy(rd, policies[i])->0;
            if i < n - 1 {
                let k = choose|k: int| 0 <= k < before.len() && before[k] == x;
                assert(after[k] == x);
            } else {
                assert(after[before.len() as int] == x);
            }
        }
    }
}

/// A duration is held between a second and a day.
pub proof fn lemma_durations_are_held(a: u64, b: u64)
    ensures
        1 <= clamped_duration(a) <= 86_400,
        1 <= a <= 86_400 ==> clamped_duration(a) == a,
        a <= b ==> clamped_duration(a) <= clamped_duration(b),
{
}

} // verus!
