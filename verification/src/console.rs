//! What the console tells its pages, and what importing and connecting change.
use vstd::prelude::*;
use vstd::string::*;
use crate::config::{Config, ConfigView, NicProfile, TestSpec, UdpProfile, UdpProfileView};
use crate::import::{
    axes_of, axes_of_loads, count_or, does_hold_trimmed, finish_to, holds_trimmed, import_notices,
    import_to, norm, norm_of, pairs_from_tests, pick_count, same_load, PairImport, TcpGroupOut,
    TcpGroupOutView, UdpGroupOut, UdpGroupOutView,
};
use crate::model::UiState;
use crate::number::Double;
use crate::protocol::{HostInfo, NicInfo};
use crate::rate::{find_profile, profile_index};
use crate::readings::Readings;
use crate::text::{
    begins, blank, cat2, cat3, cat5, copy_numbers, copy_texts, decimal, decimal_text, group_views,
    is_blank, join, joined, opt_text, or_empty, owned, parse_unsigned, pieces, read_unsigned,
    same_texts, split, strip_prefix, text_or_empty, texts, told, trim, trimmed, views,
};
use crate::url::{url_decoded, urldecode};
use crate::validate::{cleaned, cleaned_list, RxTarget};

verus! {

/// The settings that a page starts with.
#[derive(Debug)]
pub struct BootstrapOut {
    pub agent_host: String,
    pub agent_port: u16,
    pub token_configured: bool,
    pub ipv4_prefixes: Vec<String>,
    pub duration: u64,
    pub tcp_windows: Vec<String>,
    pub tcp_streams: Vec<u32>,
    pub udp_bandwidths: Vec<String>,
    pub udp_lengths: Vec<String>,
    pub udp_windows: Vec<String>,
    pub udp_streams: u32,
    pub ping_count: u32,
    pub ping_payload_sizes: Vec<u32>,
    pub ping_max_rtt_ms: Double,
    pub ping_small_max_bytes: u32,
    pub ping_medium_max_bytes: u32,
    pub ping_wired_small_avg_rtt_ms: Double,
    pub ping_wired_small_max_rtt_ms: Double,
    pub ping_wired_medium_avg_rtt_ms: Double,
    pub ping_wired_medium_max_rtt_ms: Double,
    pub ping_wired_large_avg_rtt_ms: Double,
    pub ping_wired_large_max_rtt_ms: Double,
    pub ping_wifi_small_avg_rtt_ms: Double,
    pub ping_wifi_small_max_rtt_ms: Double,
    pub ping_wifi_medium_avg_rtt_ms: Double,
    pub ping_wifi_medium_max_rtt_ms: Double,
    pub ping_wifi_large_avg_rtt_ms: Double,
    pub ping_wifi_large_max_rtt_ms: Double,
    pub screenshot: bool,
    pub ui_plan_supported: bool,
}

/// What a [`BootstrapOut`] holds.
pub ghost struct BootstrapOutView {
    pub agent_host: Seq<char>,
    pub agent_port: u16,
    pub token_configured: bool,
    pub ipv4_prefixes: Seq<Seq<char>>,
    pub duration: u64,
    pub tcp_windows: Seq<Seq<char>>,
    pub tcp_streams: Seq<u32>,
    pub udp_bandwidths: Seq<Seq<char>>,
    pub udp_lengths: Seq<Seq<char>>,
    pub udp_windows: Seq<Seq<char>>,
    pub udp_streams: u32,
    pub ping_count: u32,
    pub ping_payload_sizes: Seq<u32>,
    pub ping_max_rtt_ms: Double,
    pub ping_small_max_bytes: u32,
    pub ping_medium_max_bytes: u32,
    pub ping_wired_small_avg_rtt_ms: Double,
    pub ping_wired_small_max_rtt_ms: Double,
    pub ping_wired_medium_avg_rtt_ms: Double,
    pub ping_wired_medium_max_rtt_ms: Double,
    pub ping_wired_large_avg_rtt_ms: Double,
    pub ping_wired_large_max_rtt_ms: Double,
    pub ping_wifi_small_avg_rtt_ms: Double,
    pub ping_wifi_small_max_rtt_ms: Double,
    pub ping_wifi_medium_avg_rtt_ms: Double,
    pub ping_wifi_medium_max_rtt_ms: Double,
    pub ping_wifi_large_avg_rtt_ms: Double,
    pub ping_wifi_large_max_rtt_ms: Double,
    pub screenshot: bool,
    pub ui_plan_supported: bool,
}

impl View for BootstrapOut {
    type V = BootstrapOutView;

    open spec fn view(&self) -> BootstrapOutView {
        BootstrapOutView {
            agent_host: self.agent_host@,
            agent_port: self.agent_port,
            token_configured: self.token_configured,
            ipv4_prefixes: views(self.ipv4_prefixes@),
            duration: self.duration,
            tcp_windows: views(self.tcp_windows@),
            tcp_streams: self.tcp_streams@,
            udp_bandwidths: views(self.udp_bandwidths@),
            udp_lengths: views(self.udp_lengths@),
            udp_windows: views(self.udp_windows@),
            udp_streams: self.udp_streams,
            ping_count: self.ping_count,
            ping_payload_sizes: self.ping_payload_sizes@,
            ping_max_rtt_ms: self.ping_max_rtt_ms,
            ping_small_max_bytes: self.ping_small_max_bytes,
            ping_medium_max_bytes: self.ping_medium_max_bytes,
            ping_wired_small_avg_rtt_ms: self.ping_wired_small_avg_rtt_ms,
            ping_wired_small_max_rtt_ms: self.ping_wired_small_max_rtt_ms,
            ping_wired_medium_avg_rtt_ms: self.ping_wired_medium_avg_rtt_ms,
            ping_wired_medium_max_rtt_ms: self.ping_wired_medium_max_rtt_ms,
            ping_wired_large_avg_rtt_ms: self.ping_wired_large_avg_rtt_ms,
            ping_wired_large_max_rtt_ms: self.ping_wired_large_max_rtt_ms,
            ping_wifi_small_avg_rtt_ms: self.ping_wifi_small_avg_rtt_ms,
            ping_wifi_small_max_rtt_ms: self.ping_wifi_small_max_rtt_ms,
            ping_wifi_medium_avg_rtt_ms: self.ping_wifi_medium_avg_rtt_ms,
            ping_wifi_medium_max_rtt_ms: self.ping_wifi_medium_max_rtt_ms,
            ping_wifi_large_avg_rtt_ms: self.ping_wifi_large_avg_rtt_ms,
            ping_wifi_large_max_rtt_ms: self.ping_wifi_large_max_rtt_ms,
            screenshot: self.screenshot,
            ui_plan_supported: self.ui_plan_supported,
        }
    }
}

/// Threshold and load of one interface, as configured.
#[derive(Debug)]
pub struct NicPolicyOut {
    pub endpoint: String,
    pub rx_target: Option<RxTarget>,
    pub udp_bandwidth: String,
    pub udp_length: String,
}

/// What a [`NicPolicyOut`] holds.
pub ghost struct NicPolicyOutView {
    pub endpoint: Seq<char>,
    pub rx_target: Option<RxTarget>,
    pub udp_bandwidth: Seq<char>,
    pub udp_length: Seq<char>,
}

impl View for NicPolicyOut {
    type V = NicPolicyOutView;

    open spec fn view(&self) -> NicPolicyOutView {
        NicPolicyOutView {
            endpoint: self.endpoint@,
            rx_target: self.rx_target,
            udp_bandwidth: self.udp_bandwidth@,
            udp_length: self.udp_length@,
        }
    }
}

// ---------------------------------------------------------------------------
// Settings of a page
// ---------------------------------------------------------------------------

/// Whether a test is a TCP test with the default windows.
pub open spec fn default_tcp_test(test: TestSpec, windows: Seq<Seq<char>>) -> bool {
    holds_trimmed(test.transports@, "tcp"@) && (test.tcp_windows is None || texts(
        test.tcp_windows->0@,
    ) == windows)
}

/// The numbers of streams of the first `n` tests that run TCP with the default windows.
pub open spec fn stream_steps_to(tests: Seq<TestSpec>, windows: Seq<Seq<char>>, n: int) -> Seq<u32>
    decreases n,
{
    if n <= 0 {
        Seq::empty()
    } else {
        let test = tests[n - 1];
        if default_tcp_test(test, windows) && count_or(test.tcp_streams, 0) > 0 {
            stream_steps_to(tests, windows, n - 1).push(count_or(test.tcp_streams, 0))
        } else {
            stream_steps_to(tests, windows, n - 1)
        }
    }
}

/// The numbers of streams that a page starts with: rising, each once; ten where no test gives one.
pub open spec fn start_streams(cfg: Config) -> Seq<u32> {
    let steps = norm(
        stream_steps_to(cfg.tests@, texts(cfg.iperf.tcp_windows@), cfg.tests@.len() as int),
    );
    if steps.len() == 0 {
        seq![10u32]
    } else {
        steps
    }
}

/// The numbers of streams that a page starts with.
pub fn find_start_streams(cfg: &Config) -> (r: Vec<u32>)
    ensures
        r@ == start_streams(*cfg),
{
    let ghost windows = texts(cfg.iperf.tcp_windows@);
    let mut steps: Vec<u32> = Vec::new();
    let mut i: usize = 0;
    while i < cfg.tests.len()
        invariant
            i <= cfg.tests@.len(),
            windows == texts(cfg.iperf.tcp_windows@),
            steps@ == stream_steps_to(cfg.tests@, windows, i as int),
        decreases cfg.tests@.len() - i,
    {
        let test = &cfg.tests[i];
        let fits = match &test.tcp_windows {
            None => true,
            Some(own) => same_texts(own, &cfg.iperf.tcp_windows),
        };
        let count: u32 = pick_count(test.tcp_streams, 0);
        if does_hold_trimmed(&test.transports, "tcp") && fits && count > 0 {
            steps.push(count);
        }
        i += 1;
    }
    let mut r = norm_of(&steps);
    if r.len() == 0 {
        r.push(10);
        assert(r@ =~= seq![10u32]);
    }
    r
}

/// The index of the first UDP test from `i` on, or of the first with the default loads; the length
/// where there is none.
pub open spec fn udp_test_index(
    tests: Seq<TestSpec>,
    loads: Seq<UdpProfileView>,
    default_only: bool,
    i: int,
) -> int
    decreases tests.len() - i,
{
    if i < 0 || i >= tests.len() {
        tests.len() as int
    } else if holds_trimmed(tests[i].transports@, "udp"@) && (!default_only
        || tests[i].udp_profiles is None || views(tests[i].udp_profiles->0@) == loads) {
        i
    } else {
        udp_test_index(tests, loads, default_only, i + 1)
    }
}

/// The number of UDP streams that a page starts with: that of the first test with the default
/// loads, else that of the first UDP test.
pub open spec fn start_udp_streams(cfg: Config) -> u32 {
    let loads = views(cfg.iperf.udp_profiles@);
    let first = udp_test_index(cfg.tests@, loads, true, 0);
    let any = udp_test_index(cfg.tests@, loads, false, 0);
    if first < cfg.tests@.len() {
        count_or(cfg.tests@[first].udp_streams, 1)
    } else if any < cfg.tests@.len() {
        count_or(cfg.tests@[any].udp_streams, 1)
    } else {
        1
    }
}

/// Whether two lists of loads are the same.
pub fn same_loads(a: &Vec<UdpProfile>, b: &Vec<UdpProfile>) -> (r: bool)
    ensures
        r == (views(a@) == views(b@)),
{
    if a.len() != b.len() {
        assert(views(a@).len() != views(b@).len());
        return false;
    }
    let mut i: usize = 0;
    while i < a.len()
        invariant
            i <= a@.len(),
            a@.len() == b@.len(),
            forall|k: int| 0 <= k < i ==> a@[k]@ == b@[k]@,
        decreases a@.len() - i,
    {
        if !same_load(&a[i], &b[i]) {
            assert(views(a@)[i as int] != views(b@)[i as int]);
            return false;
        }
        i += 1;
    }
    assert(views(a@) =~= views(b@));
    true
}

/// The index of the first UDP test, or of the first with the default loads; the length where there
/// is none.
pub fn find_udp_test(cfg: &Config, default_only: bool) -> (r: usize)
    ensures
        r == udp_test_index(cfg.tests@, views(cfg.iperf.udp_profiles@), default_only, 0),
        r <= cfg.tests@.len(),
{
    let ghost loads = views(cfg.iperf.udp_profiles@);
    let mut i: usize = 0;
    while i < cfg.tests.len()
        invariant
            i <= cfg.tests@.len(),
            loads == views(cfg.iperf.udp_profiles@),
            udp_test_index(cfg.tests@, loads, default_only, 0) == udp_test_index(
                cfg.tests@,
                loads,
                default_only,
                i as int,
            ),
        decreases cfg.tests@.len() - i,
    {
        let test = &cfg.tests[i];
        let fits = !default_only || match &test.udp_profiles {
            None => true,
            Some(own) => same_loads(own, &cfg.iperf.udp_profiles),
        };
        if does_hold_trimmed(&test.transports, "udp") && fits {
            return i;
        }
        i += 1;
    }
    i
}

/// The number of UDP streams that a page starts with.
pub fn find_start_udp_streams(cfg: &Config) -> (r: u32)
    ensures
        r == start_udp_streams(*cfg),
{
    let first: usize = find_udp_test(cfg, true);
    if first < cfg.tests.len() {
        return pick_count(cfg.tests[first].udp_streams, 1);
    }
    let any: usize = find_udp_test(cfg, false);
    if any < cfg.tests.len() {
        return pick_count(cfg.tests[any].udp_streams, 1);
    }
    1
}

/// The first ping count that tests from index `i` on give, else the configured one.
pub open spec fn start_ping_count(tests: Seq<TestSpec>, own: u32, i: int) -> u32
    decreases tests.len() - i,
{
    if i < 0 || i >= tests.len() {
        own
    } else if count_or(tests[i].ping_count, 0) > 0 {
        count_or(tests[i].ping_count, 0)
    } else {
        start_ping_count(tests, own, i + 1)
    }
}

/// The first payload sizes that tests from index `i` on give, else the configured ones.
pub open spec fn start_ping_sizes(tests: Seq<TestSpec>, own: Seq<u32>, i: int) -> Seq<u32>
    decreases tests.len() - i,
{
    if i < 0 || i >= tests.len() {
        own
    } else if tests[i].ping_payload_sizes is Some && tests[i].ping_payload_sizes->0@.len() > 0 {
        tests[i].ping_payload_sizes->0@
    } else {
        start_ping_sizes(tests, own, i + 1)
    }
}

/// The first ping count that tests give, else the configured one.
pub fn find_ping_count(cfg: &Config) -> (r: u32)
    ensures
        r == start_ping_count(cfg.tests@, cfg.ping.count, 0),
{
    let mut i: usize = 0;
    while i < cfg.tests.len()
        invariant
            i <= cfg.tests@.len(),
            start_ping_count(cfg.tests@, cfg.ping.count, 0) == start_ping_count(
                cfg.tests@,
                cfg.ping.count,
                i as int,
            ),
        decreases cfg.tests@.len() - i,
    {
        let count: u32 = pick_count(cfg.tests[i].ping_count, 0);
        if count > 0 {
            return count;
        }
        i += 1;
    }
    cfg.ping.count
}

/// The first payload sizes that tests give, else the configured ones.
pub fn find_ping_sizes(cfg: &Config) -> (r: Vec<u32>)
    ensures
        r@ == start_ping_sizes(cfg.tests@, cfg.ping.payload_sizes@, 0),
{
    let mut i: usize = 0;
    while i < cfg.tests.len()
        invariant
            i <= cfg.tests@.len(),
            start_ping_sizes(cfg.tests@, cfg.ping.payload_sizes@, 0) == start_ping_sizes(
                cfg.tests@,
                cfg.ping.payload_sizes@,
                i as int,
            ),
        decreases cfg.tests@.len() - i,
    {
        if let Some(sizes) = &cfg.tests[i].ping_payload_sizes {
            if sizes.len() > 0 {
                return copy_numbers(sizes);
            }
        }
        i += 1;
    }
    copy_numbers(&cfg.ping.payload_sizes)
}

/// The settings that a page starts with. Whether there is a token is told, the token is not.
pub open spec fn bootstrap(cfg: Config, agent_host: Seq<char>) -> BootstrapOutView {
    let (udp_bandwidths, udp_lengths, udp_windows) = axes_of(views(cfg.iperf.udp_profiles@));
    BootstrapOutView {
        agent_host,
        agent_port: cfg.agent_port,
        token_configured: cfg.agent_token@.len() > 0,
        ipv4_prefixes: texts(cfg.ipv4_prefixes@),
        duration: cfg.iperf.duration,
        tcp_windows: texts(cfg.iperf.tcp_windows@),
        tcp_streams: start_streams(cfg),
        udp_bandwidths,
        udp_lengths,
        udp_windows,
        udp_streams: start_udp_streams(cfg),
        ping_count: start_ping_count(cfg.tests@, cfg.ping.count, 0),
        ping_payload_sizes: start_ping_sizes(cfg.tests@, cfg.ping.payload_sizes@, 0),
        ping_max_rtt_ms: cfg.ping.max_rtt_ms,
        ping_small_max_bytes: cfg.ping.small_max_bytes,
        ping_medium_max_bytes: cfg.ping.medium_max_bytes,
        ping_wired_small_avg_rtt_ms: cfg.ping.wired_small_avg_rtt_ms,
        ping_wired_small_max_rtt_ms: cfg.ping.max_rtt_ms,
        ping_wired_medium_avg_rtt_ms: cfg.ping.wired_medium_avg_rtt_ms,
        ping_wired_medium_max_rtt_ms: cfg.ping.wired_medium_max_rtt_ms,
        ping_wired_large_avg_rtt_ms: cfg.ping.wired_large_avg_rtt_ms,
        ping_wired_large_max_rtt_ms: cfg.ping.wired_large_max_rtt_ms,
        ping_wifi_small_avg_rtt_ms: cfg.ping.wifi_small_avg_rtt_ms,
        ping_wifi_small_max_rtt_ms: cfg.ping.wifi_small_max_rtt_ms,
        ping_wifi_medium_avg_rtt_ms: cfg.ping.wifi_medium_avg_rtt_ms,
        ping_wifi_medium_max_rtt_ms: cfg.ping.wifi_medium_max_rtt_ms,
        ping_wifi_large_avg_rtt_ms: cfg.ping.wifi_large_avg_rtt_ms,
        ping_wifi_large_max_rtt_ms: cfg.ping.wifi_large_max_rtt_ms,
        screenshot: cfg.screenshot,
        ui_plan_supported: true,
    }
}

/// The settings that a page starts with.
pub fn bootstrap_out(state: &UiState) -> (r: BootstrapOut)
    ensures
        r@ == bootstrap(state.cfg, state.agent_host@),
{
    let cfg = &state.cfg;
    let (udp_bandwidths, udp_lengths, udp_windows) = axes_of_loads(&cfg.iperf.udp_profiles);
    BootstrapOut {
        agent_host: state.agent_host.clone(),
        agent_port: cfg.agent_port,
        token_configured: !cfg.agent_token.as_str().is_empty(),
        ipv4_prefixes: copy_texts(&cfg.ipv4_prefixes),
        duration: cfg.iperf.duration,
        tcp_windows: copy_texts(&cfg.iperf.tcp_windows),
        tcp_streams: find_start_streams(cfg),
        udp_bandwidths,
        udp_lengths,
        udp_windows,
        udp_streams: find_start_udp_streams(cfg),
        ping_count: find_ping_count(cfg),
        ping_payload_sizes: find_ping_sizes(cfg),
        ping_max_rtt_ms: cfg.ping.max_rtt_ms,
        ping_small_max_bytes: cfg.ping.small_max_bytes,
        ping_medium_max_bytes: cfg.ping.medium_max_bytes,
        ping_wired_small_avg_rtt_ms: cfg.ping.wired_small_avg_rtt_ms,
        ping_wired_small_max_rtt_ms: cfg.ping.max_rtt_ms,
        ping_wired_medium_avg_rtt_ms: cfg.ping.wired_medium_avg_rtt_ms,
        ping_wired_medium_max_rtt_ms: cfg.ping.wired_medium_max_rtt_ms,
        ping_wired_large_avg_rtt_ms: cfg.ping.wired_large_avg_rtt_ms,
        ping_wired_large_max_rtt_ms: cfg.ping.wired_large_max_rtt_ms,
        ping_wifi_small_avg_rtt_ms: cfg.ping.wifi_small_avg_rtt_ms,
        ping_wifi_small_max_rtt_ms: cfg.ping.wifi_small_max_rtt_ms,
        ping_wifi_medium_avg_rtt_ms: cfg.ping.wifi_medium_avg_rtt_ms,
        ping_wifi_medium_max_rtt_ms: cfg.ping.wifi_medium_max_rtt_ms,
        ping_wifi_large_avg_rtt_ms: cfg.ping.wifi_large_avg_rtt_ms,
        ping_wifi_large_max_rtt_ms: cfg.ping.wifi_large_max_rtt_ms,
        screenshot: cfg.screenshot,
        ui_plan_supported: true,
    }
}

// ---------------------------------------------------------------------------
// Interface policies
// ---------------------------------------------------------------------------

/// The threshold of a profile: a rate comes before a share.
pub open spec fn profile_target(profile: NicProfile) -> Option<RxTarget> {
    match (profile.rx_target_mbps, profile.rx_target_percent) {
        (Some(mbps), _) => Some(RxTarget::Mbps(mbps)),
        (None, Some(percent)) => Some(RxTarget::Percent(percent)),
        (None, None) => None,
    }
}

/// The policy of an interface of a host, where a profile is about it.
pub open spec fn configured_policy(profiles: Seq<NicProfile>, host: Seq<char>, nic: NicInfo) -> Option<
    NicPolicyOutView,
> {
    let at = profile_index(profiles, host, nic, 0);
    if at < profiles.len() {
        Some(
            NicPolicyOutView {
                endpoint: host + ":NAME="@ + nic.name@,
                rx_target: profile_target(profiles[at]),
                udp_bandwidth: or_empty(opt_text(profiles[at].udp_bandwidth)),
                udp_length: or_empty(opt_text(profiles[at].udp_length)),
            },
        )
    } else {
        None
    }
}

/// The policies of the first `n` interfaces of a host.
pub open spec fn host_policies_to(
    profiles: Seq<NicProfile>,
    host: Seq<char>,
    nics: Seq<NicInfo>,
    n: int,
) -> Seq<NicPolicyOutView>
    decreases n,
{
    if n <= 0 {
        Seq::empty()
    } else {
        match configured_policy(profiles, host, nics[n - 1]) {
            Some(policy) => host_policies_to(profiles, host, nics, n - 1).push(policy),
            None => host_policies_to(profiles, host, nics, n - 1),
        }
    }
}

/// The policies of the interfaces of both hosts, the master's first.
pub open spec fn policies_of(profiles: Seq<NicProfile>, master: HostInfo, agent: HostInfo) -> Seq<
    NicPolicyOutView,
> {
    host_policies_to(
        profiles,
        "master"@,
        master.interfaces@,
        master.interfaces@.len() as int,
    ) + host_policies_to(profiles, "agent"@, agent.interfaces@, agent.interfaces@.len() as int)
}

/// The policies of the interfaces of a host.
pub fn policies_of_host(profiles: &Vec<NicProfile>, host: &str, nics: &Vec<NicInfo>) -> (r: Vec<
    NicPolicyOut,
>)
    ensures
        views(r@) == host_policies_to(profiles@, host@, nics@, nics@.len() as int),
{
    broadcast use group_views;

    let mut r: Vec<NicPolicyOut> = Vec::new();
    let mut i: usize = 0;
    while i < nics.len()
        invariant
            i <= nics@.len(),
            views(r@) == host_policies_to(profiles@, host@, nics@, i as int),
        decreases nics@.len() - i,
    {
        let nic = &nics[i];
        let at: usize = find_profile(profiles, host, nic);
        if at < profiles.len() {
            let profile = &profiles[at];
            let rx_target = match (profile.rx_target_mbps, profile.rx_target_percent) {
                (Some(mbps), _) => Some(RxTarget::Mbps(mbps)),
                (None, Some(percent)) => Some(RxTarget::Percent(percent)),
                (None, None) => None,
            };
            r.push(
                NicPolicyOut {
                    endpoint: cat3(host, ":NAME=", nic.name.as_str()),
                    rx_target,
                    udp_bandwidth: text_or_empty(&profile.udp_bandwidth),
                    udp_length: text_or_empty(&profile.udp_length),
                },
            );
        }
        i += 1;
    }
    r
}

/// The policies of the interfaces of both hosts, as configured.
pub fn configured_nic_policies(cfg: &Config, master: &HostInfo, agent: &HostInfo) -> (r: Vec<
    NicPolicyOut,
>)
    ensures
        views(r@) == policies_of(cfg.link_profiles.by_nic@, *master, *agent),
{
    broadcast use group_views;

    let profiles = &cfg.link_profiles.by_nic;
    let mut r = policies_of_host(profiles, "master", &master.interfaces);
    let mut more = policies_of_host(profiles, "agent", &agent.interfaces);
    r.append(&mut more);
    r
}

// ---------------------------------------------------------------------------
// Connecting
// ---------------------------------------------------------------------------

/// A request to connect to the agent.
#[derive(Clone, Debug)]
pub struct ConnectReq {
    pub host: String,
    /// Zero keeps the port.
    pub port: u16,
    /// Empty keeps the token.
    pub token: String,
    pub ipv4_prefixes: Option<Vec<String>>,
}

/// Takes over what a request to connect gives. Without an address there is nothing to connect to.
pub fn apply_connect(state: &mut UiState, req: &ConnectReq) -> (r: Result<(), String>)
    ensures
        final(state).agent_host@ == if blank(req.host@) {
            old(state).agent_host@
        } else {
            trimmed(req.host@)
        },
        final(state).cfg@ == (ConfigView {
            agent_port: if req.port > 0 {
                req.port
            } else {
                old(state).cfg@.agent_port
            },
            agent_token: if req.token@.len() == 0 {
                old(state).cfg@.agent_token
            } else {
                req.token@
            },
            ipv4_prefixes: match req.ipv4_prefixes {
                Some(prefixes) => cleaned(texts(prefixes@)),
                None => old(state).cfg@.ipv4_prefixes,
            },
            ..old(state).cfg@
        }),
        final(state).master == old(state).master,
        final(state).agent == old(state).agent,
        told(r) == if final(state).agent_host@.len() == 0 {
            Err("请先填辅测机 IP（辅测机 agent 窗口里显示的那个地址）"@)
        } else {
            Ok(())
        },
{
    let host = trim(req.host.as_str());
    if !host.is_empty() {
        state.agent_host = owned(host);
    }
    if req.port > 0 {
        state.cfg.agent_port = req.port;
    }
    if !req.token.as_str().is_empty() {
        state.cfg.agent_token = req.token.clone();
    }
    if let Some(prefixes) = &req.ipv4_prefixes {
        state.cfg.ipv4_prefixes = cleaned_list(prefixes);
    }
    if state.agent_host.as_str().is_empty() {
        return Err(owned("请先填辅测机 IP（辅测机 agent 窗口里显示的那个地址）"));
    }
    Ok(())
}

/// What is said where the agent does not answer.
pub fn unreachable_text(host: &str, port: u16, error: &str) -> (r: String)
    ensures
        r@ == "辅测机 "@ + host@ + ":"@ + decimal(port as nat)
            + " 连不上。请确认对方已双击 start_agent.bat，且 "@ + decimal(port as nat)
            + " 端口在防火墙放行（"@ + error@ + "）"@,
{
    let number = decimal_text(port as u64);
    let head = cat5(
        "辅测机 ",
        host,
        ":",
        number.as_str(),
        " 连不上。请确认对方已双击 start_agent.bat，且 ",
    );
    cat5(head.as_str(), number.as_str(), " 端口在防火墙放行（", error, "）")
}

/// Takes over the interfaces of both hosts once the agent has told its own, and lists the policies
/// that are configured for them. Where the agent did not tell them, nothing changes.
pub fn finish_connect(state: &mut UiState, master: HostInfo, agent: Result<HostInfo, String>) -> (r:
    Result<Vec<NicPolicyOut>, String>)
    ensures
        final(state).cfg == old(state).cfg,
        final(state).agent_host == old(state).agent_host,
        match (agent, r) {
            (Ok(told_agent), Ok(policies)) => final(state).master == master && final(state).agent
                == told_agent && views(policies@) == policies_of(
                old(state).cfg.link_profiles.by_nic@,
                master,
                told_agent,
            ),
            (Err(e), Err(said)) => *final(state) == *old(state) && said@
                == "已连上辅测机，但获取网卡失败: "@ + e@,
            _ => false,
        },
{
    match agent {
        Err(e) => Err(cat2("已连上辅测机，但获取网卡失败: ", e.as_str())),
        Ok(agent) => {
            let policies = configured_nic_policies(&state.cfg, &master, &agent);
            state.master = master;
            state.agent = agent;
            Ok(policies)
        },
    }
}

// ---------------------------------------------------------------------------
// Importing
// ---------------------------------------------------------------------------

/// What importing a configuration tells a page.
#[derive(Debug)]
pub struct ImportOut {
    pub settings: BootstrapOut,
    pub limit_udp_by_link_speed: bool,
    pub resume: bool,
    pub pairs: Vec<PairImport>,
    pub udp_groups: Vec<UdpGroupOut>,
    pub tcp_groups: Vec<TcpGroupOut>,
    pub nic_policies: Vec<NicPolicyOut>,
    /// What could not be taken over as it is.
    pub notices: Vec<String>,
}

/// Whether the token that is known stays: the configuration has none.
pub open spec fn keeps_token(own: Config, incoming: Config) -> bool {
    blank(incoming.agent_token@) && !blank(own.agent_token@)
}

/// Whether a test comes from a suite plan.
pub open spec fn from_suite(tests: Seq<TestSpec>) -> bool {
    exists|i: int|
        0 <= i < tests.len() && ((#[trigger] tests[i]).origin is Some || tests[i].link_group is Some)
}

/// Whether a test comes from a suite plan.
pub fn is_from_suite(tests: &Vec<TestSpec>) -> (r: bool)
    ensures
        r == from_suite(tests@),
{
    let mut i: usize = 0;
    while i < tests.len()
        invariant
            i <= tests@.len(),
            forall|k: int|
                0 <= k < i ==> (#[trigger] tests@[k]).origin is None && tests@[k].link_group is None,
        decreases tests@.len() - i,
    {
        if tests[i].origin.is_some() || tests[i].link_group.is_some() {
            return true;
        }
        i += 1;
    }
    false
}

/// A list of one text, or of none.
pub open spec fn text_if(condition: bool, text: Seq<char>) -> Seq<Seq<char>> {
    if condition {
        seq![text]
    } else {
        Seq::empty()
    }
}

/// What is said of a configuration before its tests are read.
pub open spec fn arrival_notices(own: UiState, incoming: Config) -> Seq<Seq<char>> {
    let connected = own.master.interfaces@.len() > 0 && own.agent.interfaces@.len() > 0;
    text_if(
        keeps_token(own.cfg, incoming),
        "文件里没有 agent_token，沿用当前已加载的令牌。"@,
    ) + text_if(
        from_suite(incoming.tests@),
        "这份配置是从「快速工作台」的套件计划导出来的：套件的任务顺序、逐任务时长和验收目标在扁平 config.json 里表示不了，导入后只剩一张矩阵。要改套件请回工作台用项目文件（cpe-ui-project.json），不要走 config.json 往返。"@,
    ) + text_if(
        incoming.pairs is Some || incoming.universal_params is Some,
        "文件用的是 pairs/universal_params 自动配对，界面矩阵是逐对勾选的，表示不了；全局参数已导入，配对请在矩阵里自己勾。"@,
    ) + text_if(
        !connected && incoming.tests@.len() > 0,
        "还没连上辅测机，配对选择先存着；点「连接」扫到网口后会自动勾上。"@,
    )
}

/// What is said of switches that the configuration sets.
pub open spec fn switch_notice(incoming: Config) -> Seq<Seq<char>> {
    text_if(
        incoming.limit_udp_by_link_speed || incoming.resume,
        "「按链路上限裁剪」和「resume」按文件里的值勾上了，跑之前确认一眼。"@,
    )
}

/// The default UDP group of a page.
pub open spec fn default_udp(settings: BootstrapOutView) -> UdpGroupOutView {
    UdpGroupOutView {
        name: "默认"@,
        bandwidths: settings.udp_bandwidths,
        lengths: settings.udp_lengths,
        windows: settings.udp_windows,
        streams: settings.udp_streams,
    }
}

/// The default TCP group of a page.
pub open spec fn default_tcp(settings: BootstrapOutView) -> TcpGroupOutView {
    TcpGroupOutView {
        name: "默认"@,
        windows: settings.tcp_windows,
        streams: settings.tcp_streams,
    }
}

/// What is said of a configuration before its tests are read.
pub fn list_arrival_notices(own: &UiState, incoming: &Config) -> (r: Vec<String>)
    ensures
        texts(r@) == arrival_notices(*own, *incoming),
{
    broadcast use group_views;

    let mut notices: Vec<String> = Vec::new();
    if is_blank(incoming.agent_token.as_str()) && !is_blank(own.cfg.agent_token.as_str()) {
        notices.push(owned("文件里没有 agent_token，沿用当前已加载的令牌。"));
    }
    if is_from_suite(&incoming.tests) {
        notices.push(
            owned(
                "这份配置是从「快速工作台」的套件计划导出来的：套件的任务顺序、逐任务时长和验收目标在扁平 config.json 里表示不了，导入后只剩一张矩阵。要改套件请回工作台用项目文件（cpe-ui-project.json），不要走 config.json 往返。",
            ),
        );
    }
    if incoming.pairs.is_some() || incoming.universal_params.is_some() {
        notices.push(
            owned(
                "文件用的是 pairs/universal_params 自动配对，界面矩阵是逐对勾选的，表示不了；全局参数已导入，配对请在矩阵里自己勾。",
            ),
        );
    }
    let connected = own.master.interfaces.len() > 0 && own.agent.interfaces.len() > 0;
    if !connected && incoming.tests.len() > 0 {
        notices.push(
            owned("还没连上辅测机，配对选择先存着；点「连接」扫到网口后会自动勾上。"),
        );
    }
    assert(texts(notices@) =~= arrival_notices(*own, *incoming));
    notices
}

/// Takes over a configuration and tells what it comes to as a matrix. One in which problems were
/// found is refused, and nothing changes.
pub fn import_config(
    state: &mut UiState,
    rd: &Readings,
    incoming: Config,
    problems: &Vec<String>,
) -> (r: Result<ImportOut, String>)
    ensures
        problems@.len() > 0 ==> {
            &&& *final(state) == *old(state)
            &&& r is Err
            &&& r->Err_0@ == "配置项异常，已拒绝导入："@ + joined(texts(problems@), "；"@)
        },
        problems@.len() == 0 ==> {
            &&& final(state).cfg@ == (ConfigView {
                agent_token: if keeps_token(old(state).cfg, incoming) {
                    old(state).cfg.agent_token@
                } else {
                    incoming.agent_token@
                },
                ..incoming@
            })
            &&& final(state).cfg.tests@ == incoming.tests@
            &&& final(state).agent_host@ == if blank(incoming.agent_host@) {
                old(state).agent_host@
            } else {
                trimmed(incoming.agent_host@)
            }
            &&& final(state).master == old(state).master
            &&& final(state).agent == old(state).agent
            &&& r is Ok
            &&& ({
                let out = r->Ok_0;
                let settings = bootstrap(final(state).cfg, final(state).agent_host@);
                let st = import_to(
                    *rd,
                    final(state).cfg,
                    default_udp(settings),
                    default_tcp(settings),
                    incoming.tests@.len() as int,
                );
                let (tcp_groups, pairs) = finish_to(
                    st.rows,
                    default_tcp(settings),
                    st.rows.len() as int,
                );
                &&& out.settings@ == settings
                &&& out.limit_udp_by_link_speed == incoming.limit_udp_by_link_speed
                &&& out.resume == incoming.resume
                &&& views(out.pairs@) == pairs
                &&& views(out.udp_groups@) == st.groups
                &&& views(out.tcp_groups@) == tcp_groups
                &&& views(out.nic_policies@) == policies_of(
                    incoming.link_profiles.by_nic@,
                    old(state).master,
                    old(state).agent,
                )
                &&& texts(out.notices@) == arrival_notices(*old(state), incoming)
                    + import_notices(st, tcp_groups.len()) + switch_notice(incoming)
            })
        },
{
    broadcast use group_views;

    if problems.len() > 0 {
        let list = join(problems, "；");
        return Err(cat2("配置项异常，已拒绝导入：", list.as_str()));
    }
    let mut notices = list_arrival_notices(state, &incoming);
    let token = if is_blank(incoming.agent_token.as_str()) && !is_blank(
        state.cfg.agent_token.as_str(),
    ) {
        state.cfg.agent_token.clone()
    } else {
        incoming.agent_token.clone()
    };
    let host = trim(incoming.agent_host.as_str());
    if !host.is_empty() {
        state.agent_host = owned(host);
    }
    let mut cfg = incoming;
    cfg.agent_token = token;
    state.cfg = cfg;
    let settings = bootstrap_out(state);
    let udp = UdpGroupOut {
        name: owned("默认"),
        bandwidths: copy_texts(&settings.udp_bandwidths),
        lengths: copy_texts(&settings.udp_lengths),
        windows: copy_texts(&settings.udp_windows),
        streams: settings.udp_streams,
    };
    let tcp = TcpGroupOut {
        name: owned("默认"),
        windows: copy_texts(&settings.tcp_windows),
        streams: copy_numbers(&settings.tcp_streams),
    };
    assert(udp@ == default_udp(settings@));
    assert(tcp@ == default_tcp(settings@));
    let (pairs, udp_groups, tcp_groups, mut more) = pairs_from_tests(rd, &state.cfg, &udp, &tcp);
    notices.append(&mut more);
    let ghost before = texts(notices@);
    if state.cfg.limit_udp_by_link_speed || state.cfg.resume {
        notices.push(
            owned("「按链路上限裁剪」和「resume」按文件里的值勾上了，跑之前确认一眼。"),
        );
    }
    assert(texts(notices@) =~= before + switch_notice(incoming));
    let nic_policies = configured_nic_policies(&state.cfg, &state.master, &state.agent);
    Ok(
        ImportOut {
            settings,
            limit_udp_by_link_speed: state.cfg.limit_udp_by_link_speed,
            resume: state.cfg.resume,
            pairs,
            udp_groups,
            tcp_groups,
            nic_policies,
            notices,
        },
    )
}

// ---------------------------------------------------------------------------
// Queries
// ---------------------------------------------------------------------------

/// The value of the first parameter from index `i` on that starts with `name`.
pub open spec fn param_from(parts: Seq<Seq<char>>, name: Seq<char>, i: int) -> Option<Seq<char>>
    decreases parts.len() - i,
{
    if i < 0 || i >= parts.len() {
        None
    } else if begins(parts[i], name) {
        Some(parts[i].skip(name.len() as int))
    } else {
        param_from(parts, name, i + 1)
    }
}

/// The value of the first parameter of a query that starts with `name`.
pub fn query_param(query: &str, name: &str) -> (r: Option<String>)
    ensures
        opt_text(r) == param_from(pieces(query@, '&'), name@, 0),
{
    let parts = split(query, '&');
    let ghost list = pieces(query@, '&');
    assert(list.len() == parts@.len());
    let mut i: usize = 0;
    while i < parts.len()
        invariant
            i <= parts@.len(),
            list == texts(parts@),
            list == pieces(query@, '&'),
            list.len() == parts@.len(),
            param_from(list, name@, 0) == param_from(list, name@, i as int),
        decreases parts@.len() - i,
    {
        assert(list[i as int] == parts@[i as int]@);
        if let Some(value) = strip_prefix(parts[i].as_str(), name) {
            return Some(owned(value));
        }
        i += 1;
    }
    None
}

/// The number that a parameter of a query gives; zero where it gives none.
pub open spec fn cursor_in(query: Seq<char>, name: Seq<char>) -> nat {
    match param_from(pieces(query, '&'), name, 0) {
        Some(value) => match read_unsigned(value, u64::MAX as nat) {
            Some(n) => n,
            None => 0,
        },
        None => 0,
    }
}

/// The number that a parameter of a query gives; zero where it gives none.
pub fn query_cursor(query: &str, name: &str) -> (r: u64)
    ensures
        r == cursor_in(query@, name@),
{
    match query_param(query, name) {
        Some(value) => match parse_unsigned(value.as_str(), u64::MAX) {
            Some(n) => n,
            None => 0,
        },
        None => 0,
    }
}

/// What a page asks about the progress of a run.
#[derive(Clone, Debug)]
pub struct ProgressQuery {
    /// The first line of the log.
    pub from: u64,
    /// The first finished unit.
    pub units_from: u64,
    /// The run that the page has seen.
    pub run_id: Option<String>,
}

/// Reads what a page asks about the progress of a run.
pub fn progress_query(query: &str) -> (r: ProgressQuery)
    ensures
        r.from == cursor_in(query@, "from="@),
        r.units_from == cursor_in(query@, "units_from="@),
        opt_text(r.run_id) == match param_from(pieces(query@, '&'), "run_id="@, 0) {
            Some(value) => Some(url_decoded(value)),
            None => None,
        },
{
    let run_id = match query_param(query, "run_id=") {
        Some(value) => Some(urldecode(value.as_str())),
        None => None,
    };
    ProgressQuery {
        from: query_cursor(query, "from="),
        units_from: query_cursor(query, "units_from="),
        run_id,
    }
}

/// Whether a run may be stopped: only one that runs.
pub fn admit_stop(running: bool) -> (r: Result<(), String>)
    ensures
        told(r) == if running {
            Ok::<(), Seq<char>>(())
        } else {
            Err::<(), Seq<char>>("当前没有正在运行的测试"@)
        },
{
    if running {
        Ok(())
    } else {
        Err(owned("当前没有正在运行的测试"))
    }
}

/// Whether a report may be opened: only one that was written and is still there.
pub fn admit_report(report: &str, is_file: bool) -> (r: Result<(), String>)
    ensures
        told(r) == if report@.len() == 0 {
            Err::<(), Seq<char>>("报告尚未生成"@)
        } else if !is_file {
            Err::<(), Seq<char>>("报告文件不存在："@ + report@)
        } else {
            Ok::<(), Seq<char>>(())
        },
{
    if report.is_empty() {
        Err(owned("报告尚未生成"))
    } else if !is_file {
        Err(cat2("报告文件不存在：", report))
    } else {
        Ok(())
    }
}

/// The report that the console shows: the first that the run has told of stays.
pub fn report_shown(shown: &str, told_by_run: &str) -> (r: String)
    ensures
        r@ == if shown@.len() == 0 {
            told_by_run@
        } else {
            shown@
        },
{
    if shown.is_empty() {
        owned(told_by_run)
    } else {
        owned(shown)
    }
}

} // verus!
