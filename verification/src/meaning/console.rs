//! What a page is told of the configuration that the console holds.
use vstd::prelude::*;
use vstd::string::*;
use crate::config::{Config, NicProfile, TestSpec};
use crate::console::{
    arrival_notices, bootstrap, configured_policy, cursor_in, default_tcp, default_udp, from_suite,
    host_policies_to, keeps_token, param_from, policies_of, start_ping_count, start_ping_sizes,
    start_streams, start_udp_streams, stream_steps_to, switch_notice, udp_test_index,
    BootstrapOutView, NicPolicyOutView,
};
use crate::import::{holds_trimmed, lemma_risen_sorts, norm, risen, rising};
use crate::meaning::import::lemma_axes_are_those_of_the_loads;
use crate::meaning::rate::{first_about, lemma_first_entry, lemma_first_entry_is_found, speaks_of};
use crate::meaning::text::lemma_joined_pieces_come_back;
use crate::model::UiState;
use crate::protocol::{HostInfo, NicInfo};
use crate::readings::{reading, reading_from, side_text, Endpoint, Reading, Side};
use crate::sweep::{deduped, lemma_deduped};
use crate::text::{begins, blank, decimal, joined, texts, views};
use crate::validate::RxTarget;

verus! {

/// Numbers that are put in order are the same numbers, each once, in rising order.
pub proof fn lemma_numbers_rise_once(s: Seq<u32>, x: u32)
    ensures
        norm(s).contains(x) <==> s.contains(x),
        norm(s).no_duplicates(),
        forall|i: int, j: int| 0 <= i < j < norm(s).len() ==> #[trigger] norm(s)[i]
            < #[trigger] norm(s)[j],
{
    broadcast use vstd::seq_lib::group_to_multiset_ensures;

    lemma_risen_sorts(s);
    let r = risen(s);
    lemma_deduped(r);
    assert(r.contains(x) <==> s.contains(x)) by {
        assert(r.to_multiset().count(x) == s.to_multiset().count(x));
        r.to_multiset_ensures();
        s.to_multiset_ensures();
        assert(r.contains(x) <==> r.to_multiset().count(x) > 0);
        assert(s.contains(x) <==> s.to_multiset().count(x) > 0);
    }
    lemma_rise_strictly(r, r.len() as int);
    assert(deduped(r) == crate::sweep::deduped_to(r, r.len() as int));
}

proof fn lemma_rise_strictly(r: Seq<u32>, n: int)
    requires
        rising(r),
        0 <= n <= r.len(),
    ensures
        ({
            let d = crate::sweep::deduped_to(r, n);
            &&& forall|i: int, j: int| 0 <= i < j < d.len() ==> #[trigger] d[i] < #[trigger] d[j]
            &&& forall|i: int| 0 <= i < d.len() ==> exists|k: int| 0 <= k < n && r[k] == #[trigger] d[i]
        }),
    decreases n,
{
    if n > 0 {
        lemma_rise_strictly(r, n - 1);
        let before = crate::sweep::deduped_to(r, n - 1);
        let d = crate::sweep::deduped_to(r, n);
        let x = r[n - 1];
        if d.len() > before.len() {
            assert(d == before.push(x));
            assert forall|i: int, j: int| 0 <= i < j < d.len() implies #[trigger] d[i]
                < #[trigger] d[j] by {
                assert(d[i] == before[i]);
                if j < before.len() {
                    assert(d[j] == before[j]);
                } else {
                    let k = choose|k: int| 0 <= k < n - 1 && r[k] == before[i];
                    assert(r[k] <= r[n - 1]);
                    if before[i] == x {
                        assert(before.contains(x));
                    }
                }
            }
        }
        assert forall|i: int| 0 <= i < d.len() implies exists|k: int|
            0 <= k < n && r[k] == #[trigger] d[i] by {
            if i < before.len() {
                assert(d[i] == before[i]);
                let k = choose|k: int| 0 <= k < n - 1 && r[k] == before[i];
                assert(r[k] == d[i]);
            } else {
                assert(r[n - 1] == d[i]);
            }
        }
    }
}

/// Whether a test runs TCP with the windows of the configuration and says in how many streams.
pub open spec fn steps_by(cfg: Config, test: TestSpec, x: u32) -> bool {
    &&& holds_trimmed(test.transports@, "tcp"@)
    &&& test.tcp_windows matches Some(windows) ==> texts(windows@) == texts(cfg.iperf.tcp_windows@)
    &&& test.tcp_streams == Some(x)
    &&& x > 0
}

proof fn lemma_steps_to(cfg: Config, n: int, x: u32)
    requires
        0 <= n <= cfg.tests@.len(),
    ensures
        stream_steps_to(cfg.tests@, texts(cfg.iperf.tcp_windows@), n).contains(x) <==> exists|i: int|
            0 <= i < n && steps_by(cfg, #[trigger] cfg.tests@[i], x),
    decreases n,
{
    if n > 0 {
        lemma_steps_to(cfg, n - 1, x);
        let windows = texts(cfg.iperf.tcp_windows@);
        let before = stream_steps_to(cfg.tests@, windows, n - 1);
        let all = stream_steps_to(cfg.tests@, windows, n);
        let test = cfg.tests@[n - 1];
        if all.contains(x) {
            let i = choose|i: int| 0 <= i < all.len() && all[i] == x;
            if i < before.len() {
                assert(before[i] == x);
                assert(before.contains(x));
                let k = choose|k: int| 0 <= k < n - 1 && steps_by(cfg, #[trigger] cfg.tests@[k], x);
                assert(steps_by(cfg, cfg.tests@[k], x));
            } else {
                assert(steps_by(cfg, test, x));
            }
        }
        if exists|i: int| 0 <= i < n && steps_by(cfg, #[trigger] cfg.tests@[i], x) {
            let k = choose|k: int| 0 <= k < n && steps_by(cfg, #[trigger] cfg.tests@[k], x);
            if k < n - 1 {
                assert(before.contains(x));
                let i = choose|i: int| 0 <= i < before.len() && before[i] == x;
                assert(all[i] == x);
            } else {
                assert(all[before.len() as int] == x);
            }
        }
    }
}

/// The numbers of TCP streams that a page starts with are those of the tests that run TCP with the
/// windows of the configuration, in rising order; ten where there are none.
pub proof fn lemma_streams_are_those_of_the_tests(cfg: Config, x: u32)
    ensures
        (exists|i: int, y: u32|
            0 <= i < cfg.tests@.len() && #[trigger] steps_by(cfg, cfg.tests@[i], y)) ==> (
        start_streams(cfg).contains(x) <==> exists|i: int|
            0 <= i < cfg.tests@.len() && steps_by(cfg, #[trigger] cfg.tests@[i], x)),
        (forall|i: int, y: u32|
            0 <= i < cfg.tests@.len() ==> !(#[trigger] steps_by(cfg, cfg.tests@[i], y)))
            ==> start_streams(cfg) == seq![10u32],
        start_streams(cfg).len() > 0,
{
    let n = cfg.tests@.len() as int;
    let steps = stream_steps_to(cfg.tests@, texts(cfg.iperf.tcp_windows@), n);
    lemma_steps_to(cfg, n, x);
    lemma_numbers_rise_once(steps, x);
    if exists|i: int, y: u32| 0 <= i < n && #[trigger] steps_by(cfg, cfg.tests@[i], y) {
        let (i, y) = choose|i: int, y: u32|
            0 <= i < n && #[trigger] steps_by(cfg, cfg.tests@[i], y);
        lemma_steps_to(cfg, n, y);
        lemma_numbers_rise_once(steps, y);
        assert(norm(steps).contains(y));
        assert(norm(steps).len() > 0);
    } else if norm(steps).len() > 0 {
        let y = norm(steps)[0];
        lemma_numbers_rise_once(steps, y);
        lemma_steps_to(cfg, n, y);
        assert(norm(steps).contains(y));
        let i = choose|i: int| 0 <= i < n && steps_by(cfg, #[trigger] cfg.tests@[i], y);
        assert(steps_by(cfg, cfg.tests@[i], y));
    }
}

proof fn lemma_udp_test(cfg: Config, default_only: bool, i: int)
    requires
        0 <= i <= cfg.tests@.len(),
    ensures
        ({
            let loads = views(cfg.iperf.udp_profiles@);
            let at = udp_test_index(cfg.tests@, loads, default_only, i);
            &&& i <= at <= cfg.tests@.len()
            &&& at < cfg.tests@.len() ==> runs_udp(cfg, cfg.tests@[at], default_only)
            &&& forall|j: int| i <= j < at ==> !runs_udp(cfg, #[trigger] cfg.tests@[j], default_only)
        }),
    decreases cfg.tests@.len() - i,
{
    if i < cfg.tests@.len() && !runs_udp(cfg, cfg.tests@[i], default_only) {
        lemma_udp_test(cfg, default_only, i + 1);
    }
}

/// Whether a test runs UDP, with the loads of the configuration where that is asked for.
pub open spec fn runs_udp(cfg: Config, test: TestSpec, default_only: bool) -> bool {
    &&& holds_trimmed(test.transports@, "udp"@)
    &&& default_only ==> (test.udp_profiles matches Some(loads) ==> views(loads@) == views(
        cfg.iperf.udp_profiles@,
    ))
}

/// The number of UDP streams that a page starts with is that of the first test that runs UDP with the
/// loads of the configuration, else of the first that runs UDP at all; one where it says none.
pub proof fn lemma_udp_streams_are_those_of_a_test(cfg: Config, at: int, default_only: bool)
    requires
        0 <= at < cfg.tests@.len(),
        runs_udp(cfg, cfg.tests@[at], default_only),
        forall|j: int| 0 <= j < at ==> !runs_udp(cfg, #[trigger] cfg.tests@[j], default_only),
        !default_only ==> forall|j: int|
            0 <= j < cfg.tests@.len() ==> !runs_udp(cfg, #[trigger] cfg.tests@[j], true),
    ensures
        cfg.tests@[at].udp_streams matches Some(n) ==> (n > 0 ==> start_udp_streams(cfg) == n) && (n
            == 0 ==> start_udp_streams(cfg) == 1),
        cfg.tests@[at].udp_streams is None ==> start_udp_streams(cfg) == 1,
{
    lemma_udp_test(cfg, true, 0);
    lemma_udp_test(cfg, false, 0);
    let loads = views(cfg.iperf.udp_profiles@);
    let first = udp_test_index(cfg.tests@, loads, true, 0);
    let any = udp_test_index(cfg.tests@, loads, false, 0);
    if default_only {
        if first < at {
            assert(!runs_udp(cfg, cfg.tests@[first], true));
        }
        if at < first {
            assert(!runs_udp(cfg, cfg.tests@[at], true));
        }
    } else {
        if first < cfg.tests@.len() {
            assert(!runs_udp(cfg, cfg.tests@[first], true));
        }
        if any < at {
            assert(!runs_udp(cfg, cfg.tests@[any], false));
        }
        if at < any {
            assert(!runs_udp(cfg, cfg.tests@[at], false));
        }
    }
}

/// Without a test that runs UDP a page starts with one stream.
pub proof fn lemma_one_udp_stream_without_tests(cfg: Config)
    requires
        forall|j: int| 0 <= j < cfg.tests@.len() ==> !runs_udp(cfg, #[trigger] cfg.tests@[j], false),
    ensures
        start_udp_streams(cfg) == 1,
{
    lemma_udp_test(cfg, true, 0);
    lemma_udp_test(cfg, false, 0);
    let loads = views(cfg.iperf.udp_profiles@);
    let first = udp_test_index(cfg.tests@, loads, true, 0);
    let any = udp_test_index(cfg.tests@, loads, false, 0);
    if first < cfg.tests@.len() {
        assert(runs_udp(cfg, cfg.tests@[first], false));
    }
}

/// The count of echoes that a page starts with is the first that a test gives, else that of the
/// configuration.
pub proof fn lemma_first_ping_count_counts(tests: Seq<TestSpec>, own: u32, i: int, at: int)
    requires
        0 <= i <= at <= tests.len(),
        forall|j: int|
            i <= j < at ==> (#[trigger] tests[j]).ping_count is None || tests[j].ping_count == Some(
                0u32,
            ),
        at < tests.len() ==> tests[at].ping_count is Some && tests[at].ping_count->0 > 0,
    ensures
        at < tests.len() ==> Some(start_ping_count(tests, own, i)) == tests[at].ping_count,
        at == tests.len() ==> start_ping_count(tests, own, i) == own,
    decreases at - i,
{
    if i < at {
        assert(tests[i].ping_count is None || tests[i].ping_count == Some(0u32));
        lemma_first_ping_count_counts(tests, own, i + 1, at);
    }
}

/// The payloads that a page starts with are the first that a test lists, else those of the
/// configuration.
pub proof fn lemma_first_ping_sizes_count(tests: Seq<TestSpec>, own: Seq<u32>, i: int, at: int)
    requires
        0 <= i <= at <= tests.len(),
        forall|j: int|
            i <= j < at ==> (#[trigger] tests[j]).ping_payload_sizes is None
                || tests[j].ping_payload_sizes->0@.len() == 0,
        at < tests.len() ==> tests[at].ping_payload_sizes is Some
            && tests[at].ping_payload_sizes->0@.len() > 0,
    ensures
        at < tests.len() ==> start_ping_sizes(tests, own, i) == tests[at].ping_payload_sizes->0@,
        at == tests.len() ==> start_ping_sizes(tests, own, i) == own,
    decreases at - i,
{
    if i < at {
        assert(tests[i].ping_payload_sizes is None || tests[i].ping_payload_sizes->0@.len() == 0);
        lemma_first_ping_sizes_count(tests, own, i + 1, at);
    }
}

/// A page starts with what the configuration holds, under the names that it has there; a token is
/// not told, only whether there is one. The largest round trip of small pings on a wire is the one
/// that was there before the sizes were told apart.
pub proof fn lemma_page_starts_with_the_configuration(cfg: Config, host: Seq<char>)
    ensures
        ({
            let out = bootstrap(cfg, host);
            &&& out.agent_host == host
            &&& out.agent_port == cfg.agent_port
            &&& out.token_configured <==> cfg.agent_token@.len() > 0
            &&& out.ipv4_prefixes == texts(cfg.ipv4_prefixes@)
            &&& out.duration == cfg.iperf.duration
            &&& out.tcp_windows == texts(cfg.iperf.tcp_windows@)
            &&& out.tcp_streams == start_streams(cfg)
            &&& out.udp_streams == start_udp_streams(cfg)
            &&& out.ping_count == start_ping_count(cfg.tests@, cfg.ping.count, 0)
            &&& out.ping_payload_sizes == start_ping_sizes(
                cfg.tests@,
                cfg.ping.payload_sizes@,
                0,
            )
            &&& out.ping_max_rtt_ms == cfg.ping.max_rtt_ms
            &&& out.ping_small_max_bytes == cfg.ping.small_max_bytes
            &&& out.ping_medium_max_bytes == cfg.ping.medium_max_bytes
            &&& out.ping_wired_small_avg_rtt_ms == cfg.ping.wired_small_avg_rtt_ms
            &&& out.ping_wired_small_max_rtt_ms == cfg.ping.max_rtt_ms
            &&& out.ping_wired_medium_avg_rtt_ms == cfg.ping.wired_medium_avg_rtt_ms
            &&& out.ping_wired_medium_max_rtt_ms == cfg.ping.wired_medium_max_rtt_ms
            &&& out.ping_wired_large_avg_rtt_ms == cfg.ping.wired_large_avg_rtt_ms
            &&& out.ping_wired_large_max_rtt_ms == cfg.ping.wired_large_max_rtt_ms
            &&& out.ping_wifi_small_avg_rtt_ms == cfg.ping.wifi_small_avg_rtt_ms
            &&& out.ping_wifi_small_max_rtt_ms == cfg.ping.wifi_small_max_rtt_ms
            &&& out.ping_wifi_medium_avg_rtt_ms == cfg.ping.wifi_medium_avg_rtt_ms
            &&& out.ping_wifi_medium_max_rtt_ms == cfg.ping.wifi_medium_max_rtt_ms
            &&& out.ping_wifi_large_avg_rtt_ms == cfg.ping.wifi_large_avg_rtt_ms
            &&& out.ping_wifi_large_max_rtt_ms == cfg.ping.wifi_large_max_rtt_ms
            &&& out.screenshot == cfg.screenshot
            &&& out.ui_plan_supported
        }),
{
}

/// The UDP loads that a page starts with have the bandwidths, lengths and windows of those of the
/// configuration.
pub proof fn lemma_page_starts_with_the_loads(cfg: Config, host: Seq<char>, x: Seq<char>)
    ensures
        ({
            let out = bootstrap(cfg, host);
            let loads = views(cfg.iperf.udp_profiles@);
            &&& out.udp_bandwidths.contains(x) <==> exists|i: int|
                0 <= i < loads.len() && (#[trigger] loads[i]).bandwidth == x
            &&& out.udp_lengths.contains(x) <==> exists|i: int|
                0 <= i < loads.len() && (#[trigger] loads[i]).length == Some(x)
            &&& out.udp_windows.contains(x) <==> exists|i: int|
                0 <= i < loads.len() && (#[trigger] loads[i]).window == Some(x)
        }),
{
    lemma_axes_are_those_of_the_loads(views(cfg.iperf.udp_profiles@), 1, x);
}

/// The default groups run what a page starts with.
pub proof fn lemma_default_groups_run_the_settings(settings: BootstrapOutView)
    ensures
        default_udp(settings).bandwidths == settings.udp_bandwidths,
        default_udp(settings).lengths == settings.udp_lengths,
        default_udp(settings).windows == settings.udp_windows,
        default_udp(settings).streams == settings.udp_streams,
        default_tcp(settings).windows == settings.tcp_windows,
        default_tcp(settings).streams == settings.tcp_streams,
        default_udp(settings).name == "默认"@,
        default_tcp(settings).name == "默认"@,
{
}

/// The policy of an interface is told from the first entry about it: a rate before a share, and an
/// empty text for a load that it does not give. An interface without an entry has no policy.
pub proof fn lemma_policy_is_that_of_the_first_entry(
    profiles: Seq<NicProfile>,
    host: Seq<char>,
    nic: NicInfo,
    at: int,
)
    ensures
        first_about(profiles, host, nic, at) ==> {
            let entry = profiles[at];
            configured_policy(profiles, host, nic) matches Some(policy) && {
                &&& policy.endpoint == host + ":NAME="@ + nic.name@
                &&& entry.rx_target_mbps matches Some(mbps) ==> policy.rx_target == Some(
                    RxTarget::Mbps(mbps),
                )
                &&& entry.rx_target_mbps is None ==> (entry.rx_target_percent matches Some(percent)
                    ==> policy.rx_target == Some(RxTarget::Percent(percent)))
                &&& entry.rx_target_mbps is None && entry.rx_target_percent is None
                    ==> policy.rx_target is None
                &&& entry.udp_bandwidth matches Some(text) ==> policy.udp_bandwidth == text@
                &&& entry.udp_bandwidth is None ==> policy.udp_bandwidth.len() == 0
                &&& entry.udp_length matches Some(text) ==> policy.udp_length == text@
                &&& entry.udp_length is None ==> policy.udp_length.len() == 0
            }
        },
        (forall|i: int| 0 <= i < profiles.len() ==> !speaks_of(#[trigger] profiles[i], host, nic))
            ==> configured_policy(profiles, host, nic) is None,
{
    if first_about(profiles, host, nic, at) {
        lemma_first_entry_is_found(profiles, host, nic, at);
    }
    lemma_first_entry(profiles, host, nic, 0);
}

proof fn lemma_host_policies(
    profiles: Seq<NicProfile>,
    host: Seq<char>,
    nics: Seq<NicInfo>,
    n: int,
    policy: NicPolicyOutView,
)
    requires
        0 <= n <= nics.len(),
    ensures
        host_policies_to(profiles, host, nics, n).contains(policy) <==> exists|i: int|
            0 <= i < n && configured_policy(profiles, host, #[trigger] nics[i]) == Some(policy),
    decreases n,
{
    if n > 0 {
        lemma_host_policies(profiles, host, nics, n - 1, policy);
        let before = host_policies_to(profiles, host, nics, n - 1);
        let all = host_policies_to(profiles, host, nics, n);
        if all.contains(policy) {
            let i = choose|i: int| 0 <= i < all.len() && all[i] == policy;
            if i < before.len() {
                assert(before[i] == policy);
                let k = choose|k: int|
                    0 <= k < n - 1 && configured_policy(profiles, host, #[trigger] nics[k]) == Some(
                        policy,
                    );
                assert(configured_policy(profiles, host, nics[k]) == Some(policy));
            } else {
                assert(configured_policy(profiles, host, nics[n - 1]) == Some(policy));
            }
        }
        if exists|i: int|
            0 <= i < n && configured_policy(profiles, host, #[trigger] nics[i]) == Some(policy) {
            let k = choose|k: int|
                0 <= k < n && configured_policy(profiles, host, #[trigger] nics[k]) == Some(policy);
            if k < n - 1 {
                assert(before.contains(policy));
                let i = choose|i: int| 0 <= i < before.len() && before[i] == policy;
                assert(all[i] == policy);
            } else {
                assert(all[before.len() as int] == policy);
            }
        }
    }
}

/// The policies that a page is told are those of the interfaces of both hosts, each under the name
/// of its host.
pub proof fn lemma_policies_are_of_both_hosts(
    profiles: Seq<NicProfile>,
    master: HostInfo,
    agent: HostInfo,
    policy: NicPolicyOutView,
)
    ensures
        policies_of(profiles, master, agent).contains(policy) <==> {
            ||| exists|i: int|
                0 <= i < master.interfaces@.len() && configured_policy(
                    profiles,
                    "master"@,
                    #[trigger] master.interfaces@[i],
                ) == Some(policy)
            ||| exists|i: int|
                0 <= i < agent.interfaces@.len() && configured_policy(
                    profiles,
                    "agent"@,
                    #[trigger] agent.interfaces@[i],
                ) == Some(policy)
        },
{
    let (m, a) = (master.interfaces@, agent.interfaces@);
    lemma_host_policies(profiles, "master"@, m, m.len() as int, policy);
    lemma_host_policies(profiles, "agent"@, a, a.len() as int, policy);
    let first = host_policies_to(profiles, "master"@, m, m.len() as int);
    let second = host_policies_to(profiles, "agent"@, a, a.len() as int);
    let all = policies_of(profiles, master, agent);
    if all.contains(policy) {
        let i = choose|i: int| 0 <= i < all.len() && all[i] == policy;
        if i < first.len() {
            assert(first[i] == policy);
            assert(first.contains(policy));
        } else {
            assert(second[i - first.len()] == policy);
            assert(second.contains(policy));
        }
    }
    if first.contains(policy) {
        let i = choose|i: int| 0 <= i < first.len() && first[i] == policy;
        assert(all[i] == policy);
    }
    if second.contains(policy) {
        let i = choose|i: int| 0 <= i < second.len() && second[i] == policy;
        assert(all[first.len() + i] == policy);
    }
}

/// A token that is known stays exactly when the file has none.
pub proof fn lemma_known_tokens_stay(own: Config, incoming: Config)
    ensures
        keeps_token(own, incoming) <==> blank(incoming.agent_token@) && !blank(own.agent_token@),
        !(blank(incoming.agent_token@)) ==> !keeps_token(own, incoming),
{
}

/// An import is told of once for each thing that does not come over: the token, the suites, the
/// pairs by rule, and the rows while no agent is connected.
pub proof fn lemma_imports_are_told_of(own: UiState, incoming: Config)
    ensures
        ({
            let notices = arrival_notices(own, incoming);
            let token = blank(incoming.agent_token@) && !blank(own.cfg.agent_token@);
            let suite = exists|i: int|
                0 <= i < incoming.tests@.len() && ((#[trigger] incoming.tests@[i]).origin is Some
                    || incoming.tests@[i].link_group is Some);
            let rule = incoming.pairs is Some || incoming.universal_params is Some;
            let early = incoming.tests@.len() > 0 && (own.master.interfaces@.len() == 0
                || own.agent.interfaces@.len() == 0);
            notices.len() == (if token {
                1int
            } else {
                0
            }) + (if suite {
                1int
            } else {
                0
            }) + (if rule {
                1int
            } else {
                0
            }) + (if early {
                1int
            } else {
                0
            })
        }),
        switch_notice(incoming).len() == (if incoming.limit_udp_by_link_speed || incoming.resume {
            1int
        } else {
            0
        }),
{
    assert(from_suite(incoming.tests@) <==> exists|i: int|
        0 <= i < incoming.tests@.len() && ((#[trigger] incoming.tests@[i]).origin is Some
            || incoming.tests@[i].link_group is Some));
}

/// A parameter of a query has the value that follows its name, the first where it stands twice.
pub proof fn lemma_first_parameter_counts(parts: Seq<Seq<char>>, name: Seq<char>, i: int, at: int)
    requires
        0 <= i <= at <= parts.len(),
        forall|j: int| i <= j < at ==> !(begins(#[trigger] parts[j], name)),
        at < parts.len() ==> begins(parts[at], name),
    ensures
        at < parts.len() ==> (param_from(parts, name, i) matches Some(value) && parts[at] == name
            + value),
        at == parts.len() ==> param_from(parts, name, i) is None,
    decreases at - i,
{
    if i < at {
        assert(!(begins(parts[i], name)));
        lemma_first_parameter_counts(parts, name, i + 1, at);
    } else if at < parts.len() {
        let n = name.len() as int;
        assert(parts[at] =~= parts[at].subrange(0, n) + parts[at].skip(n));
    }
}

/// A cursor is the number that its parameter gives, and zero without one.
pub proof fn lemma_cursor_is_the_number_given(parts: Seq<Seq<char>>, name: Seq<char>, n: nat, at: int)
    requires
        0 <= at < parts.len(),
        forall|j: int| 0 <= j < parts.len() ==> !(#[trigger] parts[j]).contains('&'),
        forall|j: int| 0 <= j < at ==> !(begins(#[trigger] parts[j], name)),
        parts[at] == name + decimal(n),
        n <= u64::MAX,
    ensures
        cursor_in(joined(parts, seq!['&']), name) == n,
{
    lemma_joined_pieces_come_back(parts, '&');
    assert(parts[at].subrange(0, name.len() as int) =~= name);
    assert(begins(parts[at], name));
    lemma_first_parameter_counts(parts, name, 0, at);
    let value = param_from(parts, name, 0)->0;
    assert(value =~= decimal(n)) by {
        assert(parts[at].skip(name.len() as int) =~= decimal(n));
        assert((name + value).skip(name.len() as int) =~= value);
    }
    crate::meaning::text::lemma_written_numbers_read_back(n, u64::MAX as nat);
}

/// The ends of links are told apart by their host and their interface's name.
pub proof fn lemma_ends_are_told_apart(a: Endpoint, b: Endpoint)
    ensures
        a.key_text() == b.key_text() <==> a.side == b.side && a.nic.name@ == b.nic.name@,
        side_text(Side::Master) == "master"@,
        side_text(Side::Agent) == "agent"@,
{
    reveal_strlit("master");
    reveal_strlit("agent");
    reveal_strlit(":");
    let (s, t) = (a.key_text(), b.key_text());
    if s == t {
        assert(s[0] == side_text(a.side)[0]);
        assert(t[0] == side_text(b.side)[0]);
        assert("master"@[0] == 'm' && "agent"@[0] == 'a');
        assert(a.side == b.side);
        let n = side_text(a.side).len() as int + 1;
        assert(s.skip(n) =~= a.nic.name@);
        assert(t.skip(n) =~= b.nic.name@);
    }
}

/// A text is read as the first entry about it says.
pub proof fn lemma_first_reading_of_a_text_counts<T>(
    v: Seq<Reading<T>>,
    text: Seq<char>,
    i: int,
    at: int,
)
    requires
        0 <= i <= at <= v.len(),
        forall|j: int| i <= j < at ==> (#[trigger] v[j]).text@ != text,
        at < v.len() ==> v[at].text@ == text,
    ensures
        at < v.len() ==> (v[at].outcome matches Ok(x) ==> reading_from(v, text, i) == Ok::<
            T,
            Seq<char>,
        >(x)),
        at < v.len() ==> (v[at].outcome matches Err(e) ==> reading_from(v, text, i) == Err::<
            T,
            Seq<char>,
        >(e@)),
        at == v.len() ==> reading_from(v, text, i) is Err,
        reading(v, text) == reading_from(v, text, 0),
    decreases at - i,
{
    if i < at {
        assert(v[i].text@ != text);
        lemma_first_reading_of_a_text_counts(v, text, i + 1, at);
    }
}

} // verus!
