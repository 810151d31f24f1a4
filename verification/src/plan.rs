//! From a request to the configuration that runs it: the matrix of pairs.
use vstd::prelude::*;
use vstd::string::*;
use crate::config::{
    copy_udp_profiles, Config, ConfigView, IperfCfgView, LinkProfilesView, NicProfile,
    NicProfileView, OneOrMany, PingCfg, PingCfgView, RateCheckCfg, RateTargets, TestSpec,
    TestSpecView, TotalTarget, UdpProfile, UdpProfileView,
};
use crate::model::{NicPolicySelection, PairSelection, RunRequest, UdpGroup, UiState};
use crate::number::Double;
use crate::readings::Readings;
use crate::sweep::{
    at_least_one, cleaned_or, deduped, distinct_indices, distinct_numbers, first_or_one, non_empty,
    nonzero, nonzero_numbers, or_one, steps_or, udp_cross, udp_profiles_for, udp_profiles_of,
    udp_sweep,
};
use crate::text::{
    begins, blank, cat2, cat3, cat4, cat5, copy_numbers, copy_texts, cut, decimal,
    decimal_text_wide, group_views, is_blank, lists, opt_text, opt_view, opt_views, owned, same,
    split_once, strip_prefix, texts, trim, trimmed, views,
};
use crate::validate::{
    cleaned, cleaned_list, parse_rx_target, pinned_endpoints, rx_target, udp_pinned_senders,
    RxTarget,
};
use crate::wifi_targets::{apply_wifi_pair_targets, with_wifi_targets};

verus! {

// ---------------------------------------------------------------------------
// Settings
// ---------------------------------------------------------------------------

/// A duration held to the range that tests may have.
pub open spec fn clamped_duration(duration: u64) -> u64 {
    if duration < 1 {
        1
    } else if duration > 86_400 {
        86_400
    } else {
        duration
    }
}

/// A duration held to the range that tests may have.
pub fn clamp_duration(duration: u64) -> (r: u64)
    ensures
        r == clamped_duration(duration),
{
    if duration < 1 {
        1
    } else if duration > 86_400 {
        86_400
    } else {
        duration
    }
}

/// A threshold from a request where it gives one, else the configured one.
pub open spec fn given_or(given: Double, own: Double) -> Double {
    if given.positive() {
        given
    } else {
        own
    }
}

/// A threshold from a request where it gives one, else the configured one.
pub fn pick_given(given: Double, own: Double) -> (r: Double)
    ensures
        r == given_or(given, own),
{
    if given.is_positive() {
        given
    } else {
        own
    }
}

/// A size from a request where it gives one, else the configured one.
pub open spec fn given_size_or(given: u32, own: u32) -> u32 {
    if given > 0 {
        given
    } else {
        own
    }
}

/// The ping settings with those of a request over them.
pub open spec fn ping_overridden(cfg: PingCfgView, req: RunRequest) -> PingCfgView {
    PingCfgView {
        small_max_bytes: given_size_or(req.ping_small_max_bytes, cfg.small_max_bytes),
        medium_max_bytes: given_size_or(req.ping_medium_max_bytes, cfg.medium_max_bytes),
        wired_small_avg_rtt_ms: given_or(
            req.ping_wired_small_avg_rtt_ms,
            cfg.wired_small_avg_rtt_ms,
        ),
        max_rtt_ms: given_or(
            req.ping_wired_small_max_rtt_ms,
            given_or(req.ping_max_rtt_ms, cfg.max_rtt_ms),
        ),
        wired_medium_avg_rtt_ms: given_or(
            req.ping_wired_medium_avg_rtt_ms,
            cfg.wired_medium_avg_rtt_ms,
        ),
        wired_medium_max_rtt_ms: given_or(
            req.ping_wired_medium_max_rtt_ms,
            cfg.wired_medium_max_rtt_ms,
        ),
        wired_large_avg_rtt_ms: given_or(
            req.ping_wired_large_avg_rtt_ms,
            cfg.wired_large_avg_rtt_ms,
        ),
        wired_large_max_rtt_ms: given_or(
            req.ping_wired_large_max_rtt_ms,
            cfg.wired_large_max_rtt_ms,
        ),
        wifi_small_avg_rtt_ms: given_or(req.ping_wifi_small_avg_rtt_ms, cfg.wifi_small_avg_rtt_ms),
        wifi_small_max_rtt_ms: given_or(req.ping_wifi_small_max_rtt_ms, cfg.wifi_small_max_rtt_ms),
        wifi_medium_avg_rtt_ms: given_or(
            req.ping_wifi_medium_avg_rtt_ms,
            cfg.wifi_medium_avg_rtt_ms,
        ),
        wifi_medium_max_rtt_ms: given_or(
            req.ping_wifi_medium_max_rtt_ms,
            cfg.wifi_medium_max_rtt_ms,
        ),
        wifi_large_avg_rtt_ms: given_or(req.ping_wifi_large_avg_rtt_ms, cfg.wifi_large_avg_rtt_ms),
        wifi_large_max_rtt_ms: given_or(req.ping_wifi_large_max_rtt_ms, cfg.wifi_large_max_rtt_ms),
        ..cfg
    }
}

/// Puts the ping settings of a request over the configured ones.
pub fn apply_ping_policy_overrides(cfg: &mut PingCfg, req: &RunRequest)
    ensures
        final(cfg)@ == ping_overridden(old(cfg)@, *req),
{
    if req.ping_small_max_bytes > 0 {
        cfg.small_max_bytes = req.ping_small_max_bytes;
    }
    if req.ping_medium_max_bytes > 0 {
        cfg.medium_max_bytes = req.ping_medium_max_bytes;
    }
    cfg.wired_small_avg_rtt_ms = pick_given(
        req.ping_wired_small_avg_rtt_ms,
        cfg.wired_small_avg_rtt_ms,
    );
    let older = pick_given(req.ping_max_rtt_ms, cfg.max_rtt_ms);
    cfg.max_rtt_ms = pick_given(req.ping_wired_small_max_rtt_ms, older);
    cfg.wired_medium_avg_rtt_ms = pick_given(
        req.ping_wired_medium_avg_rtt_ms,
        cfg.wired_medium_avg_rtt_ms,
    );
    cfg.wired_medium_max_rtt_ms = pick_given(
        req.ping_wired_medium_max_rtt_ms,
        cfg.wired_medium_max_rtt_ms,
    );
    cfg.wired_large_avg_rtt_ms = pick_given(
        req.ping_wired_large_avg_rtt_ms,
        cfg.wired_large_avg_rtt_ms,
    );
    cfg.wired_large_max_rtt_ms = pick_given(
        req.ping_wired_large_max_rtt_ms,
        cfg.wired_large_max_rtt_ms,
    );
    cfg.wifi_small_avg_rtt_ms = pick_given(
        req.ping_wifi_small_avg_rtt_ms,
        cfg.wifi_small_avg_rtt_ms,
    );
    cfg.wifi_small_max_rtt_ms = pick_given(
        req.ping_wifi_small_max_rtt_ms,
        cfg.wifi_small_max_rtt_ms,
    );
    cfg.wifi_medium_avg_rtt_ms = pick_given(
        req.ping_wifi_medium_avg_rtt_ms,
        cfg.wifi_medium_avg_rtt_ms,
    );
    cfg.wifi_medium_max_rtt_ms = pick_given(
        req.ping_wifi_medium_max_rtt_ms,
        cfg.wifi_medium_max_rtt_ms,
    );
    cfg.wifi_large_avg_rtt_ms = pick_given(
        req.ping_wifi_large_avg_rtt_ms,
        cfg.wifi_large_avg_rtt_ms,
    );
    cfg.wifi_large_max_rtt_ms = pick_given(
        req.ping_wifi_large_max_rtt_ms,
        cfg.wifi_large_max_rtt_ms,
    );
}

/// A threshold in Mbps; a share comes to none.
pub fn rx_target_mbps(target: RxTarget) -> (r: Option<Double>)
    ensures
        r == match target {
            RxTarget::Mbps(value) => Some(value),
            RxTarget::Percent(_) => None,
        },
{
    match target {
        RxTarget::Mbps(value) => Some(value),
        RxTarget::Percent(_) => None,
    }
}

/// The rate in Mbps that a threshold text gives, if it gives one.
pub open spec fn mbps_in(rd: Readings, raw: Seq<char>) -> Option<Double> {
    match rx_target(rd, raw) {
        Ok(Some(RxTarget::Mbps(value))) => Some(value),
        _ => None,
    }
}

/// The rate in Mbps that a threshold text gives, if it gives one.
pub fn read_mbps(rd: &Readings, raw: &str) -> (r: Option<Double>)
    ensures
        r == mbps_in(*rd, raw@),
{
    match parse_rx_target(rd, raw) {
        Ok(Some(target)) => rx_target_mbps(target),
        _ => None,
    }
}

/// The share in percent that a threshold text gives, if it gives one.
pub open spec fn percent_in(rd: Readings, raw: Seq<char>) -> Option<Double> {
    match rx_target(rd, raw) {
        Ok(Some(RxTarget::Percent(value))) => Some(value),
        _ => None,
    }
}

/// A text trimmed, where anything is left of it.
pub open spec fn some_trimmed(raw: Seq<char>) -> Option<Seq<char>> {
    if blank(raw) {
        None
    } else {
        Some(trimmed(raw))
    }
}

/// A text trimmed, where anything is left of it.
pub fn trim_to_some(raw: &str) -> (r: Option<String>)
    ensures
        opt_text(r) == some_trimmed(raw@),
{
    let text = trim(raw);
    if text.is_empty() {
        None
    } else {
        Some(owned(text))
    }
}

/// The interface profile that a policy comes to; none where it says nothing or names no interface.
pub open spec fn profile_of_policy(rd: Readings, policy: NicPolicySelection) -> Option<
    NicProfileView,
> {
    let mbps = mbps_in(rd, policy.rx_target@);
    let percent = percent_in(rd, policy.rx_target@);
    let bandwidth = some_trimmed(policy.udp_bandwidth@);
    let length = some_trimmed(policy.udp_length@);
    if mbps is None && percent is None && bandwidth is None && length is None {
        None
    } else {
        match cut(policy.endpoint@, ':') {
            None => None,
            Some((host, rest)) => if begins(rest, "NAME="@) {
                Some(
                    NicProfileView {
                        host,
                        name: rest.skip("NAME="@.len() as int),
                        ipv4: Seq::empty(),
                        rx_target_mbps: mbps,
                        rx_target_percent: percent,
                        udp_bandwidth: bandwidth,
                        udp_length: length,
                    },
                )
            } else {
                None
            },
        }
    }
}

/// The interface profile that a policy comes to.
pub fn nic_profile(rd: &Readings, policy: &NicPolicySelection) -> (r: Option<NicProfile>)
    ensures
        opt_view(r) == profile_of_policy(*rd, *policy),
{
    let (mbps, percent): (Option<Double>, Option<Double>) = match parse_rx_target(
        rd,
        policy.rx_target.as_str(),
    ) {
        Ok(Some(RxTarget::Mbps(value))) => (Some(value), None),
        Ok(Some(RxTarget::Percent(value))) => (None, Some(value)),
        _ => (None, None),
    };
    let bandwidth = trim_to_some(policy.udp_bandwidth.as_str());
    let length = trim_to_some(policy.udp_length.as_str());
    if mbps.is_none() && percent.is_none() && bandwidth.is_none() && length.is_none() {
        return None;
    }
    match split_once(policy.endpoint.as_str(), ':') {
        None => None,
        Some((host, rest)) => match strip_prefix(rest, "NAME=") {
            None => None,
            Some(name) => Some(
                NicProfile {
                    host: owned(host),
                    name: owned(name),
                    ipv4: String::new(),
                    rx_target_mbps: mbps,
                    rx_target_percent: percent,
                    udp_bandwidth: bandwidth,
                    udp_length: length,
                },
            ),
        },
    }
}

/// The profiles of the first `n` policies.
pub open spec fn profiles_to(rd: Readings, policies: Seq<NicPolicySelection>, n: int) -> Seq<
    NicProfileView,
>
    decreases n,
{
    if n <= 0 {
        Seq::empty()
    } else {
        match profile_of_policy(rd, policies[n - 1]) {
            Some(profile) => profiles_to(rd, policies, n - 1).push(profile),
            None => profiles_to(rd, policies, n - 1),
        }
    }
}

/// The profiles of the policies.
pub fn nic_profiles(rd: &Readings, policies: &Vec<NicPolicySelection>) -> (r: Vec<NicProfile>)
    ensures
        views(r@) == profiles_to(*rd, policies@, policies@.len() as int),
{
    broadcast use group_views;

    let mut r: Vec<NicProfile> = Vec::new();
    let mut i: usize = 0;
    while i < policies.len()
        invariant
            i <= policies@.len(),
            views(r@) == profiles_to(*rd, policies@, i as int),
        decreases policies@.len() - i,
    {
        if let Some(profile) = nic_profile(rd, &policies[i]) {
            r.push(profile);
        }
        i += 1;
    }
    r
}

/// The rate settings with those that a project pins over them.
pub open spec fn rate_check_of(own: RateCheckCfg, req: RunRequest) -> RateCheckCfg {
    RateCheckCfg {
        targets_mbps: match req.global_rate_targets {
            Some(targets) => targets,
            None => own.targets_mbps,
        },
        mode: match req.global_rate_mode {
            Some(mode) => mode,
            None => own.mode,
        },
        ..own
    }
}

/// Puts the rate settings that a project pins over the configured ones.
pub fn apply_global_rate_targets(cfg: &mut RateCheckCfg, req: &RunRequest)
    ensures
        *final(cfg) == rate_check_of(*old(cfg), *req),
{
    if let Some(targets) = req.global_rate_targets {
        cfg.targets_mbps = targets;
    }
    if let Some(mode) = req.global_rate_mode {
        cfg.mode = mode;
    }
}

/// The UDP loads to fall back on: those that a project pins, else the configured ones.
pub open spec fn fallback_profiles(own: Seq<UdpProfileView>, req: RunRequest) -> Seq<
    UdpProfileView,
> {
    match req.udp_profiles {
        Some(profiles) => if profiles@.len() > 0 {
            views(profiles@)
        } else {
            own
        },
        None => own,
    }
}

/// Puts the UDP loads that a project pins over the configured ones.
pub fn apply_pinned_udp_profiles(own: &mut Vec<UdpProfile>, req: &RunRequest)
    ensures
        views(final(own)@) == fallback_profiles(views(old(own)@), *req),
{
    if let Some(profiles) = &req.udp_profiles {
        if profiles.len() > 0 {
            *own = copy_udp_profiles(profiles);
        }
    }
}

/// The UDP loads of a request: its axes crossed, or what it falls back on where it gives no
/// bandwidth.
pub open spec fn default_profiles(own: Seq<UdpProfileView>, req: RunRequest) -> Seq<
    UdpProfileView,
> {
    let bandwidths = cleaned(texts(req.udp_bandwidths@));
    if bandwidths.len() == 0 {
        fallback_profiles(own, req)
    } else {
        udp_sweep(bandwidths, cleaned(texts(req.udp_lengths@)), cleaned(texts(req.udp_windows@)))
    }
}

/// The configuration of a request without its tests. Ping count and payloads stay as configured.
pub open spec fn base_config(state: UiState, rd: Readings, req: RunRequest) -> ConfigView {
    let own = state.cfg@;
    ConfigView {
        agent_host: state.agent_host@,
        screenshot: req.screenshot,
        limit_udp_by_link_speed: req.limit_udp_by_link_speed,
        resume: req.resume,
        iperf: IperfCfgView {
            duration: clamped_duration(req.duration),
            tcp_windows: cleaned_or(texts(req.tcp_windows@), own.iperf.tcp_windows),
            udp_profiles: default_profiles(own.iperf.udp_profiles, req),
            rate_check: rate_check_of(own.iperf.rate_check, req),
        },
        ping: ping_overridden(own.ping, req),
        link_profiles: LinkProfilesView {
            by_nic: profiles_to(rd, req.nic_policies@, req.nic_policies@.len() as int),
            ..own.link_profiles
        },
        pairs: None,
        universal_params: None,
        ..own
    }
}

/// The configuration of a request without its tests.
pub fn config_base(state: &UiState, rd: &Readings, req: &RunRequest) -> (r: Config)
    ensures
        r@ == base_config(*state, *rd, *req),
{
    let mut cfg = state.cfg.clone();
    cfg.agent_host = state.agent_host.clone();
    cfg.screenshot = req.screenshot;
    cfg.limit_udp_by_link_speed = req.limit_udp_by_link_speed;
    cfg.resume = req.resume;
    cfg.iperf.duration = clamp_duration(req.duration);
    cfg.pairs = None;
    cfg.universal_params = None;
    cfg.link_profiles.by_nic = nic_profiles(rd, &req.nic_policies);
    apply_global_rate_targets(&mut cfg.iperf.rate_check, req);
    apply_pinned_udp_profiles(&mut cfg.iperf.udp_profiles, req);
    apply_ping_policy_overrides(&mut cfg.ping, req);
    cfg.iperf.tcp_windows = non_empty(&req.tcp_windows, &cfg.iperf.tcp_windows);
    let bandwidths = cleaned_list(&req.udp_bandwidths);
    assert(texts(bandwidths@).len() == bandwidths@.len());
    if bandwidths.len() > 0 {
        let lengths = cleaned_list(&req.udp_lengths);
        let windows = cleaned_list(&req.udp_windows);
        cfg.iperf.udp_profiles = udp_profiles_of(&bandwidths, &lengths, &windows);
    }
    cfg
}

// ---------------------------------------------------------------------------
// Groups
// ---------------------------------------------------------------------------

/// A group of UDP parameters, ready to run.
#[derive(Debug)]
pub struct ResolvedUdpGroup {
    pub bandwidths: Vec<String>,
    pub lengths: Vec<String>,
    pub windows: Vec<String>,
    pub streams: u32,
    /// Loads to run as they are, in place of the axes.
    pub verbatim: Option<Vec<UdpProfile>>,
}

/// What a [`ResolvedUdpGroup`] holds.
pub ghost struct ResolvedUdpGroupView {
    pub bandwidths: Seq<Seq<char>>,
    pub lengths: Seq<Seq<char>>,
    pub windows: Seq<Seq<char>>,
    pub streams: u32,
    pub verbatim: Option<Seq<UdpProfileView>>,
}

impl View for ResolvedUdpGroup {
    type V = ResolvedUdpGroupView;

    open spec fn view(&self) -> ResolvedUdpGroupView {
        ResolvedUdpGroupView {
            bandwidths: views(self.bandwidths@),
            lengths: views(self.lengths@),
            windows: views(self.windows@),
            streams: self.streams,
            verbatim: opt_views(self.verbatim),
        }
    }
}

/// A group of TCP parameters, ready to run.
#[derive(Debug)]
pub struct ResolvedTcpGroup {
    pub windows: Vec<String>,
    pub stream_steps: Vec<u32>,
}

/// What a [`ResolvedTcpGroup`] holds.
pub ghost struct ResolvedTcpGroupView {
    pub windows: Seq<Seq<char>>,
    pub stream_steps: Seq<u32>,
}

impl View for ResolvedTcpGroup {
    type V = ResolvedTcpGroupView;

    open spec fn view(&self) -> ResolvedTcpGroupView {
        ResolvedTcpGroupView {
            windows: views(self.windows@),
            stream_steps: self.stream_steps@,
        }
    }
}

/// All groups of a request, ready to run.
#[derive(Debug)]
pub struct Sweeps {
    pub tcp_groups: Vec<ResolvedTcpGroup>,
    pub udp_groups: Vec<ResolvedUdpGroup>,
    pub ping_sizes: Vec<u32>,
    pub duration: u64,
    /// The endpoints whose UDP bandwidth a policy fixes.
    pub pinned_senders: Vec<String>,
}

/// What a [`Sweeps`] holds.
pub ghost struct SweepsView {
    pub tcp_groups: Seq<ResolvedTcpGroupView>,
    pub udp_groups: Seq<ResolvedUdpGroupView>,
    pub ping_sizes: Seq<u32>,
    pub duration: u64,
    pub pinned_senders: Seq<Seq<char>>,
}

impl View for Sweeps {
    type V = SweepsView;

    open spec fn view(&self) -> SweepsView {
        SweepsView {
            tcp_groups: views(self.tcp_groups@),
            udp_groups: views(self.udp_groups@),
            ping_sizes: self.ping_sizes@,
            duration: self.duration,
            pinned_senders: views(self.pinned_senders@),
        }
    }
}

impl ResolvedUdpGroupView {
    /// The loads that a group runs.
    pub open spec fn loads(self) -> Seq<UdpProfileView> {
        match self.verbatim {
            Some(profiles) => profiles,
            None => udp_sweep(self.bandwidths, self.lengths, self.windows),
        }
    }
}

impl ResolvedUdpGroup {
    /// The loads that a group runs.
    pub fn profiles(&self) -> (r: Vec<UdpProfile>)
        ensures
            views(r@) == self@.loads(),
    {
        match &self.verbatim {
            Some(profiles) => copy_udp_profiles(profiles),
            None => udp_profiles_of(&self.bandwidths, &self.lengths, &self.windows),
        }
    }
}

/// The group with that number; the default group where there is none.
pub open spec fn group_at<T>(groups: Seq<T>, index: usize) -> T {
    if index < groups.len() {
        groups[index as int]
    } else {
        groups[0]
    }
}

impl Sweeps {
    /// The UDP group with that number; the default group where there is none.
    pub fn udp_group(&self, index: usize) -> (r: &ResolvedUdpGroup)
        requires
            self.udp_groups@.len() > 0,
        ensures
            r@ == group_at(self@.udp_groups, index),
    {
        if index < self.udp_groups.len() {
            &self.udp_groups[index]
        } else {
            &self.udp_groups[0]
        }
    }

    /// The TCP group with that number; the default group where there is none.
    pub fn tcp_group(&self, index: usize) -> (r: &ResolvedTcpGroup)
        requires
            self.tcp_groups@.len() > 0,
        ensures
            r@ == group_at(self@.tcp_groups, index),
    {
        if index < self.tcp_groups.len() {
            &self.tcp_groups[index]
        } else {
            &self.tcp_groups[0]
        }
    }
}

/// The groups that a row runs: those it chooses, each once, or the default group alone.
pub open spec fn chosen_groups(groups: Seq<usize>) -> Seq<usize> {
    if groups.len() == 0 {
        seq![0usize]
    } else {
        deduped(groups)
    }
}

/// The groups that a row runs.
pub fn selected_groups(groups: &Vec<usize>) -> (r: Vec<usize>)
    ensures
        r@ == chosen_groups(groups@),
{
    if groups.len() == 0 {
        let mut r: Vec<usize> = Vec::new();
        r.push(0);
        assert(r@ =~= seq![0usize]);
        r
    } else {
        distinct_indices(groups)
    }
}

/// The UDP groups that a row runs.
pub fn selected_udp_groups(pair: &PairSelection) -> (r: Vec<usize>)
    ensures
        r@ == chosen_groups(pair.udp_groups@),
{
    selected_groups(&pair.udp_groups)
}

/// The TCP groups that a row runs.
pub fn selected_tcp_groups(pair: &PairSelection) -> (r: Vec<usize>)
    ensures
        r@ == chosen_groups(pair.tcp_groups@),
{
    selected_groups(&pair.tcp_groups)
}

/// A further UDP group, ready to run.
pub open spec fn resolved_udp(group: UdpGroup) -> ResolvedUdpGroupView {
    ResolvedUdpGroupView {
        bandwidths: cleaned(texts(group.bandwidths@)),
        lengths: cleaned(texts(group.lengths@)),
        windows: cleaned(texts(group.windows@)),
        streams: at_least_one(group.streams),
        verbatim: None,
    }
}

/// The default UDP group and the first `n` further ones; `loads` are the default group's where the
/// request gives no bandwidth.
pub open spec fn udp_groups_to(req: RunRequest, loads: Seq<UdpProfileView>, n: int) -> Seq<
    ResolvedUdpGroupView,
>
    decreases n,
{
    if n <= 0 {
        let bandwidths = cleaned(texts(req.udp_bandwidths@));
        seq![
            ResolvedUdpGroupView {
                bandwidths,
                lengths: cleaned(texts(req.udp_lengths@)),
                windows: cleaned(texts(req.udp_windows@)),
                streams: at_least_one(req.udp_streams),
                verbatim: if bandwidths.len() == 0 {
                    Some(loads)
                } else {
                    None
                },
            },
        ]
    } else {
        udp_groups_to(req, loads, n - 1).push(resolved_udp(req.udp_groups@[n - 1]))
    }
}

/// All UDP groups of a request.
pub fn resolve_udp_groups(req: &RunRequest, loads: &Vec<UdpProfile>) -> (r: Vec<ResolvedUdpGroup>)
    ensures
        views(r@) == udp_groups_to(*req, views(loads@), req.udp_groups@.len() as int),
{
    broadcast use group_views;

    let bandwidths = cleaned_list(&req.udp_bandwidths);
    assert(texts(bandwidths@).len() == bandwidths@.len());
    let verbatim = if bandwidths.len() == 0 {
        Some(copy_udp_profiles(loads))
    } else {
        None
    };
    let first = ResolvedUdpGroup {
        bandwidths,
        lengths: cleaned_list(&req.udp_lengths),
        windows: cleaned_list(&req.udp_windows),
        streams: or_one(req.udp_streams),
        verbatim,
    };
    let mut r: Vec<ResolvedUdpGroup> = Vec::new();
    let ghost first_view = first@;
    r.push(first);
    assert(views(r@) =~= seq![first_view]);
    let mut i: usize = 0;
    while i < req.udp_groups.len()
        invariant
            i <= req.udp_groups@.len(),
            views(r@) == udp_groups_to(*req, views(loads@), i as int),
        decreases req.udp_groups@.len() - i,
    {
        let group = &req.udp_groups[i];
        let next = ResolvedUdpGroup {
            bandwidths: cleaned_list(&group.bandwidths),
            lengths: cleaned_list(&group.lengths),
            windows: cleaned_list(&group.windows),
            streams: or_one(group.streams),
            verbatim: None,
        };
        assert(next@ == resolved_udp(*group));
        r.push(next);
        i += 1;
    }
    r
}

/// The default TCP group, with `windows`, and the first `n` further ones.
pub open spec fn tcp_groups_to(req: RunRequest, windows: Seq<Seq<char>>, n: int) -> Seq<
    ResolvedTcpGroupView,
>
    decreases n,
{
    if n <= 0 {
        seq![ResolvedTcpGroupView { windows, stream_steps: steps_or(req.tcp_streams@, 1) }]
    } else {
        tcp_groups_to(req, windows, n - 1).push(
            ResolvedTcpGroupView {
                windows: cleaned(texts(req.tcp_groups@[n - 1].windows@)),
                stream_steps: steps_or(req.tcp_groups@[n - 1].streams@, 1),
            },
        )
    }
}

/// All TCP groups of a request.
pub fn resolve_tcp_groups(req: &RunRequest, windows: &Vec<String>) -> (r: Vec<ResolvedTcpGroup>)
    ensures
        views(r@) == tcp_groups_to(*req, texts(windows@), req.tcp_groups@.len() as int),
{
    broadcast use group_views;

    let first = ResolvedTcpGroup {
        windows: copy_texts(windows),
        stream_steps: first_or_one(&req.tcp_streams, 1),
    };
    let mut r: Vec<ResolvedTcpGroup> = Vec::new();
    let ghost first_view = first@;
    r.push(first);
    assert(views(r@) =~= seq![first_view]);
    let mut i: usize = 0;
    while i < req.tcp_groups.len()
        invariant
            i <= req.tcp_groups@.len(),
            views(r@) == tcp_groups_to(*req, texts(windows@), i as int),
        decreases req.tcp_groups@.len() - i,
    {
        let group = &req.tcp_groups[i];
        let next = ResolvedTcpGroup {
            windows: cleaned_list(&group.windows),
            stream_steps: first_or_one(&group.streams, 1),
        };
        assert(next@ == (ResolvedTcpGroupView {
            windows: cleaned(texts(req.tcp_groups@[i as int].windows@)),
            stream_steps: steps_or(req.tcp_groups@[i as int].streams@, 1),
        }));
        r.push(next);
        i += 1;
    }
    r
}

/// The groups of a request over the configuration without its tests.
pub open spec fn sweeps_of(req: RunRequest, cfg: ConfigView) -> SweepsView {
    SweepsView {
        tcp_groups: tcp_groups_to(req, cfg.iperf.tcp_windows, req.tcp_groups@.len() as int),
        udp_groups: udp_groups_to(req, cfg.iperf.udp_profiles, req.udp_groups@.len() as int),
        ping_sizes: deduped(nonzero(req.ping_payload_sizes@)),
        duration: clamped_duration(req.duration),
        pinned_senders: pinned_endpoints(req.nic_policies@),
    }
}

/// The groups of a request over the configuration without its tests.
pub fn resolve_sweeps(req: &RunRequest, cfg: &Config) -> (r: Sweeps)
    ensures
        r@ == sweeps_of(*req, cfg@),
{
    let sizes = nonzero_numbers(&req.ping_payload_sizes);
    Sweeps {
        tcp_groups: resolve_tcp_groups(req, &cfg.iperf.tcp_windows),
        udp_groups: resolve_udp_groups(req, &cfg.iperf.udp_profiles),
        ping_sizes: distinct_numbers(&sizes),
        duration: clamp_duration(req.duration),
        pinned_senders: udp_pinned_senders(&req.nic_policies),
    }
}

proof fn lemma_groups_nonempty(req: RunRequest, cfg: ConfigView)
    ensures
        sweeps_of(req, cfg).tcp_groups.len() == req.tcp_groups@.len() + 1,
        sweeps_of(req, cfg).udp_groups.len() == req.udp_groups@.len() + 1,
{
    lemma_tcp_groups_len(req, cfg.iperf.tcp_windows, req.tcp_groups@.len() as int);
    lemma_udp_groups_len(req, cfg.iperf.udp_profiles, req.udp_groups@.len() as int);
}

proof fn lemma_tcp_groups_len(req: RunRequest, windows: Seq<Seq<char>>, n: int)
    requires
        n >= 0,
    ensures
        tcp_groups_to(req, windows, n).len() == n + 1,
    decreases n,
{
    if n > 0 {
        lemma_tcp_groups_len(req, windows, n - 1);
    }
}

proof fn lemma_udp_groups_len(req: RunRequest, loads: Seq<UdpProfileView>, n: int)
    requires
        n >= 0,
    ensures
        udp_groups_to(req, loads, n).len() == n + 1,
    decreases n,
{
    if n > 0 {
        lemma_udp_groups_len(req, loads, n - 1);
    }
}

// ---------------------------------------------------------------------------
// Directions
// ---------------------------------------------------------------------------

/// Whether every end that sends in a direction has its bandwidth fixed.
pub open spec fn direction_pinned(dir: Seq<char>, src_pinned: bool, dst_pinned: bool) -> bool {
    if dir == "ab"@ {
        src_pinned
    } else if dir == "ba"@ {
        dst_pinned
    } else {
        dir == "bidir"@ && src_pinned && dst_pinned
    }
}

/// Whether every end that sends in a direction has its bandwidth fixed.
pub fn is_direction_pinned(dir: &str, src_pinned: bool, dst_pinned: bool) -> (r: bool)
    ensures
        r == direction_pinned(dir@, src_pinned, dst_pinned),
{
    if same(dir, "ab") {
        src_pinned
    } else if same(dir, "ba") {
        dst_pinned
    } else {
        same(dir, "bidir") && src_pinned && dst_pinned
    }
}

/// The directions among the first `n` that are pinned, or those that are not.
pub open spec fn directions_to(
    dirs: Seq<Seq<char>>,
    src_pinned: bool,
    dst_pinned: bool,
    pinned: bool,
    n: int,
) -> Seq<Seq<char>>
    decreases n,
{
    if n <= 0 {
        Seq::empty()
    } else if direction_pinned(dirs[n - 1], src_pinned, dst_pinned) == pinned {
        directions_to(dirs, src_pinned, dst_pinned, pinned, n - 1).push(dirs[n - 1])
    } else {
        directions_to(dirs, src_pinned, dst_pinned, pinned, n - 1)
    }
}

/// The directions that are pinned, or those that are not.
pub open spec fn directions_where(
    dirs: Seq<Seq<char>>,
    src_pinned: bool,
    dst_pinned: bool,
    pinned: bool,
) -> Seq<Seq<char>> {
    directions_to(dirs, src_pinned, dst_pinned, pinned, dirs.len() as int)
}

/// The directions that are pinned, or those that are not.
pub fn part_of_directions(
    dirs: &Vec<String>,
    src_pinned: bool,
    dst_pinned: bool,
    pinned: bool,
) -> (r: Vec<String>)
    ensures
        texts(r@) == directions_where(texts(dirs@), src_pinned, dst_pinned, pinned),
{
    broadcast use group_views;

    let mut r: Vec<String> = Vec::new();
    let mut i: usize = 0;
    while i < dirs.len()
        invariant
            i <= dirs@.len(),
            texts(r@) == directions_to(texts(dirs@), src_pinned, dst_pinned, pinned, i as int),
        decreases dirs@.len() - i,
    {
        assert(texts(dirs@)[i as int] == dirs@[i as int]@);
        if is_direction_pinned(dirs[i].as_str(), src_pinned, dst_pinned) == pinned {
            r.push(owned(dirs[i].as_str()));
        }
        i += 1;
    }
    r
}

/// The bandwidth that the first policy from index `i` on fixes for either end of a link; `fallback`
/// where none does.
pub open spec fn fixed_bandwidth(
    policies: Seq<NicPolicySelection>,
    src: Seq<char>,
    dst: Seq<char>,
    fallback: Seq<char>,
    i: int,
) -> Seq<char>
    decreases policies.len() - i,
{
    if i < 0 || i >= policies.len() {
        fallback
    } else if (policies[i].endpoint@ == src || policies[i].endpoint@ == dst) && !blank(
        policies[i].udp_bandwidth@,
    ) {
        trimmed(policies[i].udp_bandwidth@)
    } else {
        fixed_bandwidth(policies, src, dst, fallback, i + 1)
    }
}

/// The bandwidth that a policy fixes for either end of a link; `fallback` where none does.
pub fn find_fixed_bandwidth(
    policies: &Vec<NicPolicySelection>,
    src: &str,
    dst: &str,
    fallback: &str,
) -> (r: String)
    ensures
        r@ == fixed_bandwidth(policies@, src@, dst@, fallback@, 0),
{
    let mut i: usize = 0;
    while i < policies.len()
        invariant
            i <= policies@.len(),
            fixed_bandwidth(policies@, src@, dst@, fallback@, 0) == fixed_bandwidth(
                policies@,
                src@,
                dst@,
                fallback@,
                i as int,
            ),
        decreases policies@.len() - i,
    {
        let policy = &policies[i];
        if (same(policy.endpoint.as_str(), src) || same(policy.endpoint.as_str(), dst))
            && !is_blank(policy.udp_bandwidth.as_str()) {
            return owned(trim(policy.udp_bandwidth.as_str()));
        }
        i += 1;
    }
    owned(fallback)
}

// ---------------------------------------------------------------------------
// Tests of a row
// ---------------------------------------------------------------------------

/// The thresholds of a row for both directions at once; none where they do not run at once.
pub open spec fn pair_bidir_targets(rd: Readings, pair: PairSelection) -> Option<RateTargets> {
    let ab = mbps_in(rd, pair.rx_target_bidir_ab@);
    let ba = mbps_in(rd, pair.rx_target_bidir_ba@);
    if texts(pair.directions@).contains("bidir"@) && (ab is Some || ba is Some) {
        Some(RateTargets { forward: None, ab, ba })
    } else {
        None
    }
}

/// A rate as a threshold on the sum.
pub open spec fn total_in(rd: Readings, raw: Seq<char>) -> Option<TotalTarget> {
    match mbps_in(rd, raw) {
        Some(value) => Some(TotalTarget::Total(value)),
        None => None,
    }
}

/// A rate as a threshold on the sum.
pub fn read_total(rd: &Readings, raw: &str) -> (r: Option<TotalTarget>)
    ensures
        r == total_in(*rd, raw@),
{
    match read_mbps(rd, raw) {
        Some(value) => Some(TotalTarget::Total(value)),
        None => None,
    }
}

/// The threshold of a row on the sum of both directions; none where they do not run at once.
pub open spec fn pair_bidir_total(rd: Readings, pair: PairSelection) -> Option<TotalTarget> {
    if texts(pair.directions@).contains("bidir"@) {
        total_in(rd, pair.rx_target_bidir_total@)
    } else {
        None
    }
}

/// What all tests of a row have in common.
pub open spec fn pair_base(
    rd: Readings,
    pair: PairSelection,
    duration: u64,
    name: Seq<char>,
    transports: Seq<Seq<char>>,
) -> TestSpecView {
    TestSpecView {
        name,
        src: pair.src@,
        dst: pair.dst@,
        direction: texts(pair.directions@),
        direction_listed: true,
        kinds: seq!["iperf"@],
        transports,
        ip: texts(pair.ip@),
        streams: 1,
        tcp_streams: None,
        udp_streams: None,
        iperf_duration: Some(duration),
        ping_count: None,
        ping_payload_sizes: None,
        tcp_windows: None,
        udp_profiles: None,
        rate_mode: None,
        rate_targets_mbps: None,
        rate_targets_bidir_mbps: pair_bidir_targets(rd, pair),
        rate_target_bidir_total_mbps: pair_bidir_total(rd, pair),
        link_group: None,
        origin: None,
    }
}

/// A list of one text.
pub fn one_text(s: &str) -> (r: Vec<String>)
    ensures
        texts(r@) == seq![s@],
{
    let mut r: Vec<String> = Vec::new();
    r.push(owned(s));
    assert(texts(r@) =~= seq![s@]);
    r
}

/// What all tests of a row have in common.
pub fn pair_spec(
    rd: &Readings,
    pair: &PairSelection,
    duration: u64,
    name: String,
    transports: Vec<String>,
) -> (r: TestSpec)
    ensures
        r@ == pair_base(*rd, *pair, duration, name@, texts(transports@)),
{
    let bidir = lists(&pair.directions, "bidir");
    let ab = read_mbps(rd, pair.rx_target_bidir_ab.as_str());
    let ba = read_mbps(rd, pair.rx_target_bidir_ba.as_str());
    let bidir_targets = if bidir && (ab.is_some() || ba.is_some()) {
        Some(RateTargets { forward: None, ab, ba })
    } else {
        None
    };
    let bidir_total = if bidir {
        read_total(rd, pair.rx_target_bidir_total.as_str())
    } else {
        None
    };
    TestSpec {
        name,
        src: pair.src.clone(),
        dst: pair.dst.clone(),
        direction: OneOrMany::Many(copy_texts(&pair.directions)),
        kinds: one_text("iperf"),
        transports,
        ip: copy_texts(&pair.ip),
        streams: 1,
        tcp_streams: None,
        udp_streams: None,
        iperf_duration: Some(duration),
        ping_count: None,
        ping_payload_sizes: None,
        tcp_windows: None,
        udp_profiles: None,
        rate_mode: None,
        rate_targets_mbps: None,
        rate_targets_bidir_mbps: bidir_targets,
        rate_target_bidir_total_mbps: bidir_total,
        link_group: None,
        origin: None,
    }
}

/// What a test name says of its group: nothing for the default group.
pub open spec fn group_suffix(group: usize) -> Seq<char> {
    if group == 0 {
        Seq::empty()
    } else {
        "-g"@ + decimal((group + 1) as nat)
    }
}

/// What a test name says of its group.
pub fn suffix_of_group(group: usize) -> (r: String)
    ensures
        r@ == group_suffix(group),
{
    if group == 0 {
        String::new()
    } else {
        let number = decimal_text_wide(group as u128 + 1);
        cat2("-g", number.as_str())
    }
}

/// How the names of the tests of a row start.
pub open spec fn row_name(idx: usize) -> Seq<char> {
    "ui-"@ + decimal((idx + 1) as nat)
}

/// How the names of the tests of a row start.
pub fn name_of_row(idx: usize) -> (r: String)
    ensures
        r@ == row_name(idx),
{
    let number = decimal_text_wide(idx as u128 + 1);
    cat2("ui-", number.as_str())
}

/// The TCP test of a row for one group and one number of streams.
pub open spec fn tcp_test(
    rd: Readings,
    idx: usize,
    pair: PairSelection,
    sweeps: SweepsView,
    group: usize,
    streams: u32,
) -> TestSpecView {
    let name = row_name(idx) + "-tcp"@ + group_suffix(group) + "-P"@ + decimal(streams as nat);
    TestSpecView {
        tcp_streams: Some(streams),
        tcp_windows: Some(group_at(sweeps.tcp_groups, group).windows),
        ..pair_base(rd, pair, sweeps.duration, name, seq!["tcp"@])
    }
}

/// The TCP tests of a row for one group and its first `n` numbers of streams.
pub open spec fn tcp_group_tests_to(
    rd: Readings,
    idx: usize,
    pair: PairSelection,
    sweeps: SweepsView,
    group: usize,
    n: int,
) -> Seq<TestSpecView>
    decreases n,
{
    if n <= 0 {
        Seq::empty()
    } else {
        let streams = group_at(sweeps.tcp_groups, group).stream_steps[n - 1];
        tcp_group_tests_to(rd, idx, pair, sweeps, group, n - 1).push(
            tcp_test(rd, idx, pair, sweeps, group, streams),
        )
    }
}

/// The TCP tests of a row for one group.
pub open spec fn tcp_group_tests(
    rd: Readings,
    idx: usize,
    pair: PairSelection,
    sweeps: SweepsView,
    group: usize,
) -> Seq<TestSpecView> {
    tcp_group_tests_to(
        rd,
        idx,
        pair,
        sweeps,
        group,
        group_at(sweeps.tcp_groups, group).stream_steps.len() as int,
    )
}

/// The TCP tests of a row for one group.
pub fn tcp_specs_for_group(
    rd: &Readings,
    idx: usize,
    pair: &PairSelection,
    sweeps: &Sweeps,
    group: usize,
) -> (r: Vec<TestSpec>)
    requires
        sweeps.tcp_groups@.len() > 0,
    ensures
        views(r@) == tcp_group_tests(*rd, idx, *pair, sweeps@, group),
{
    broadcast use group_views;

    let tcp = sweeps.tcp_group(group);
    let row = name_of_row(idx);
    let suffix = suffix_of_group(group);
    let mut r: Vec<TestSpec> = Vec::new();
    let mut i: usize = 0;
    while i < tcp.stream_steps.len()
        invariant
            i <= tcp.stream_steps@.len(),
            tcp@ == group_at(sweeps@.tcp_groups, group),
            row@ == row_name(idx),
            suffix@ == group_suffix(group),
            views(r@) == tcp_group_tests_to(*rd, idx, *pair, sweeps@, group, i as int),
        decreases tcp.stream_steps@.len() - i,
    {
        let streams: u32 = tcp.stream_steps[i];
        let number = decimal_text_wide(streams as u128);
        let name = cat5(row.as_str(), "-tcp", suffix.as_str(), "-P", number.as_str());
        let mut spec = pair_spec(rd, pair, sweeps.duration, name, one_text("tcp"));
        spec.tcp_streams = Some(streams);
        spec.tcp_windows = Some(copy_texts(&tcp.windows));
        assert(spec@ == tcp_test(*rd, idx, *pair, sweeps@, group, streams));
        r.push(spec);
        i += 1;
    }
    r
}

/// The UDP tests of a row for one group: one for the directions whose bandwidth is fixed, one for
/// the others.
pub open spec fn udp_group_tests(
    rd: Readings,
    idx: usize,
    pair: PairSelection,
    req: RunRequest,
    sweeps: SweepsView,
    group: usize,
) -> Seq<TestSpecView> {
    let udp = group_at(sweeps.udp_groups, group);
    let src_pinned = sweeps.pinned_senders.contains(pair.src@);
    let dst_pinned = sweeps.pinned_senders.contains(pair.dst@);
    let dirs = texts(pair.directions@);
    let pinned = directions_where(dirs, src_pinned, dst_pinned, true);
    let swept = directions_where(dirs, src_pinned, dst_pinned, false);
    let name = row_name(idx) + "-udp"@ + group_suffix(group);
    let bandwidth = fixed_bandwidth(req.nic_policies@, pair.src@, pair.dst@, "1m"@, 0);
    let fixed = TestSpecView {
        direction: pinned,
        udp_streams: Some(udp.streams),
        udp_profiles: Some(udp_cross(bandwidth, udp.lengths, udp.windows)),
        ..pair_base(rd, pair, sweeps.duration, name + "-pinned"@, seq!["udp"@])
    };
    let free = TestSpecView {
        direction: swept,
        udp_streams: Some(udp.streams),
        udp_profiles: Some(udp.loads()),
        ..pair_base(rd, pair, sweeps.duration, name, seq!["udp"@])
    };
    (if pinned.len() > 0 {
        seq![fixed]
    } else {
        Seq::empty()
    }) + (if swept.len() > 0 {
        seq![free]
    } else {
        Seq::empty()
    })
}

/// The UDP tests of a row for one group.
pub fn udp_specs_for_group(
    rd: &Readings,
    idx: usize,
    pair: &PairSelection,
    req: &RunRequest,
    sweeps: &Sweeps,
    group: usize,
) -> (r: Vec<TestSpec>)
    requires
        sweeps.udp_groups@.len() > 0,
    ensures
        views(r@) == udp_group_tests(*rd, idx, *pair, *req, sweeps@, group),
{
    broadcast use group_views;

    let udp = sweeps.udp_group(group);
    let src_pinned = lists(&sweeps.pinned_senders, pair.src.as_str());
    let dst_pinned = lists(&sweeps.pinned_senders, pair.dst.as_str());
    let pinned = part_of_directions(&pair.directions, src_pinned, dst_pinned, true);
    let swept = part_of_directions(&pair.directions, src_pinned, dst_pinned, false);
    assert(texts(pinned@).len() == pinned@.len());
    assert(texts(swept@).len() == swept@.len());
    let row = name_of_row(idx);
    let suffix = suffix_of_group(group);
    let mut r: Vec<TestSpec> = Vec::new();
    if pinned.len() > 0 {
        let bandwidth = find_fixed_bandwidth(
            &req.nic_policies,
            pair.src.as_str(),
            pair.dst.as_str(),
            "1m",
        );
        let name = cat4(row.as_str(), "-udp", suffix.as_str(), "-pinned");
        let mut spec = pair_spec(rd, pair, sweeps.duration, name, one_text("udp"));
        spec.direction = OneOrMany::Many(pinned);
        spec.udp_streams = Some(udp.streams);
        spec.udp_profiles = Some(udp_profiles_for(bandwidth.as_str(), &udp.lengths, &udp.windows));
        r.push(spec);
    }
    if swept.len() > 0 {
        let name = cat3(row.as_str(), "-udp", suffix.as_str());
        let mut spec = pair_spec(rd, pair, sweeps.duration, name, one_text("udp"));
        spec.direction = OneOrMany::Many(swept);
        spec.udp_streams = Some(udp.streams);
        spec.udp_profiles = Some(udp.profiles());
        r.push(spec);
    }
    assert(views(r@) =~= udp_group_tests(*rd, idx, *pair, *req, sweeps@, group));
    r
}

/// The TCP tests of a row for the first `n` of the groups it runs.
pub open spec fn tcp_tests_to(
    rd: Readings,
    idx: usize,
    pair: PairSelection,
    sweeps: SweepsView,
    n: int,
) -> Seq<TestSpecView>
    decreases n,
{
    if n <= 0 {
        Seq::empty()
    } else {
        tcp_tests_to(rd, idx, pair, sweeps, n - 1) + tcp_group_tests(
            rd,
            idx,
            pair,
            sweeps,
            chosen_groups(pair.tcp_groups@)[n - 1],
        )
    }
}

/// The UDP tests of a row for the first `n` of the groups it runs.
pub open spec fn udp_tests_to(
    rd: Readings,
    idx: usize,
    pair: PairSelection,
    req: RunRequest,
    sweeps: SweepsView,
    n: int,
) -> Seq<TestSpecView>
    decreases n,
{
    if n <= 0 {
        Seq::empty()
    } else {
        udp_tests_to(rd, idx, pair, req, sweeps, n - 1) + udp_group_tests(
            rd,
            idx,
            pair,
            req,
            sweeps,
            chosen_groups(pair.udp_groups@)[n - 1],
        )
    }
}

/// The ping test of a row.
pub open spec fn ping_test(
    rd: Readings,
    idx: usize,
    pair: PairSelection,
    req: RunRequest,
    sweeps: SweepsView,
) -> TestSpecView {
    TestSpecView {
        kinds: seq!["ping"@],
        ping_count: if req.ping_count > 0 {
            Some(req.ping_count)
        } else {
            None
        },
        ping_payload_sizes: if sweeps.ping_sizes.len() > 0 {
            Some(sweeps.ping_sizes)
        } else {
            None
        },
        ..pair_base(rd, pair, sweeps.duration, row_name(idx) + "-ping"@, Seq::empty())
    }
}

/// The tests of a row: TCP, then UDP, then ping, as far as it asks for them.
pub open spec fn pair_tests(
    rd: Readings,
    idx: usize,
    pair: PairSelection,
    req: RunRequest,
    sweeps: SweepsView,
) -> Seq<TestSpecView> {
    let transports = texts(pair.transports@);
    (if transports.contains("tcp"@) {
        tcp_tests_to(rd, idx, pair, sweeps, chosen_groups(pair.tcp_groups@).len() as int)
    } else {
        Seq::empty()
    }) + (if transports.contains("udp"@) {
        udp_tests_to(rd, idx, pair, req, sweeps, chosen_groups(pair.udp_groups@).len() as int)
    } else {
        Seq::empty()
    }) + (if transports.contains("ping"@) {
        seq![ping_test(rd, idx, pair, req, sweeps)]
    } else {
        Seq::empty()
    })
}

/// The tests of a row: TCP, then UDP, then ping, as far as it asks for them.
pub fn specs_for_pair(
    rd: &Readings,
    idx: usize,
    pair: &PairSelection,
    req: &RunRequest,
    sweeps: &Sweeps,
) -> (r: Vec<TestSpec>)
    requires
        texts(pair.transports@).contains("tcp"@) ==> sweeps.tcp_groups@.len() > 0,
        texts(pair.transports@).contains("udp"@) ==> sweeps.udp_groups@.len() > 0,
    ensures
        views(r@) == pair_tests(*rd, idx, *pair, *req, sweeps@),
{
    broadcast use group_views;

    let mut tests: Vec<TestSpec> = Vec::new();
    if lists(&pair.transports, "tcp") {
        let groups = selected_tcp_groups(pair);
        let mut i: usize = 0;
        while i < groups.len()
            invariant
                i <= groups@.len(),
                groups@ == chosen_groups(pair.tcp_groups@),
                sweeps.tcp_groups@.len() > 0,
                views(tests@) == tcp_tests_to(*rd, idx, *pair, sweeps@, i as int),
            decreases groups@.len() - i,
        {
            let mut more = tcp_specs_for_group(rd, idx, pair, sweeps, groups[i]);
            tests.append(&mut more);
            i += 1;
        }
    }
    let ghost after_tcp = views(tests@);
    if lists(&pair.transports, "udp") {
        let groups = selected_udp_groups(pair);
        let mut i: usize = 0;
        assert(after_tcp + Seq::<TestSpecView>::empty() =~= after_tcp);
        while i < groups.len()
            invariant
                i <= groups@.len(),
                groups@ == chosen_groups(pair.udp_groups@),
                sweeps.udp_groups@.len() > 0,
                views(tests@) == after_tcp + udp_tests_to(
                    *rd,
                    idx,
                    *pair,
                    *req,
                    sweeps@,
                    i as int,
                ),
            decreases groups@.len() - i,
        {
            let mut more = udp_specs_for_group(rd, idx, pair, req, sweeps, groups[i]);
            let ghost added = views(more@);
            let ghost before = udp_tests_to(*rd, idx, *pair, *req, sweeps@, i as int);
            tests.append(&mut more);
            assert((after_tcp + before) + added =~= after_tcp + (before + added));
            i += 1;
        }
    } else {
        assert(after_tcp + Seq::<TestSpecView>::empty() =~= after_tcp);
    }
    let ghost after_udp = views(tests@);
    if lists(&pair.transports, "ping") {
        let row = name_of_row(idx);
        let name = cat2(row.as_str(), "-ping");
        let mut spec = pair_spec(rd, pair, sweeps.duration, name, Vec::new());
        spec.kinds = one_text("ping");
        if req.ping_count > 0 {
            spec.ping_count = Some(req.ping_count);
        }
        if sweeps.ping_sizes.len() > 0 {
            spec.ping_payload_sizes = Some(copy_numbers(&sweeps.ping_sizes));
        }
        assert(spec@ == ping_test(*rd, idx, *pair, *req, sweeps@));
        tests.push(spec);
        assert(views(tests@) =~= after_udp + seq![ping_test(*rd, idx, *pair, *req, sweeps@)]);
    } else {
        assert(after_udp + Seq::<TestSpecView>::empty() =~= after_udp);
    }
    tests
}

// ---------------------------------------------------------------------------
// The matrix
// ---------------------------------------------------------------------------

/// Tests with the Wi-Fi thresholds of a request filled in.
pub open spec fn all_with_wifi_targets(
    tests: Seq<TestSpecView>,
    rd: Readings,
    req: RunRequest,
    src: Seq<char>,
    dst: Seq<char>,
) -> Seq<TestSpecView> {
    Seq::new(tests.len(), |i: int| with_wifi_targets(tests[i], rd, req, src, dst))
}

/// Fills in the Wi-Fi thresholds of a request in each test.
pub fn apply_wifi_to_all(
    tests: Vec<TestSpec>,
    rd: &Readings,
    req: &RunRequest,
    src: &str,
    dst: &str,
) -> (r: Vec<TestSpec>)
    ensures
        views(r@) == all_with_wifi_targets(views(tests@), *rd, *req, src@, dst@),
{
    broadcast use group_views;

    let mut r: Vec<TestSpec> = Vec::new();
    let mut i: usize = 0;
    let ghost all = all_with_wifi_targets(views(tests@), *rd, *req, src@, dst@);
    while i < tests.len()
        invariant
            i <= tests@.len(),
            all == all_with_wifi_targets(views(tests@), *rd, *req, src@, dst@),
            views(r@) == all.take(i as int),
        decreases tests@.len() - i,
    {
        let mut spec = tests[i].clone();
        apply_wifi_pair_targets(&mut spec, rd, req, src, dst);
        assert(spec@ == all[i as int]);
        r.push(spec);
        assert(all.take(i as int).push(all[i as int]) =~= all.take(i + 1));
        i += 1;
    }
    assert(all.take(i as int) =~= all);
    r
}

/// The tests of the first `n` rows.
pub open spec fn matrix_tests_to(rd: Readings, req: RunRequest, sweeps: SweepsView, n: int) -> Seq<
    TestSpecView,
>
    decreases n,
{
    if n <= 0 {
        Seq::empty()
    } else {
        let pair = req.pairs@[n - 1];
        matrix_tests_to(rd, req, sweeps, n - 1) + all_with_wifi_targets(
            pair_tests(rd, (n - 1) as usize, pair, req, sweeps),
            rd,
            req,
            pair.src@,
            pair.dst@,
        )
    }
}

/// The configuration that runs a matrix.
pub open spec fn matrix_config(state: UiState, rd: Readings, req: RunRequest) -> ConfigView {
    let base = base_config(state, rd, req);
    ConfigView {
        tests: matrix_tests_to(rd, req, sweeps_of(req, base), req.pairs@.len() as int),
        ..base
    }
}

/// The configuration that runs a matrix.
pub fn config_from_matrix(state: &UiState, rd: &Readings, req: &RunRequest) -> (r: Config)
    ensures
        r@ == matrix_config(*state, *rd, *req),
{
    broadcast use group_views;

    let mut cfg = config_base(state, rd, req);
    let sweeps = resolve_sweeps(req, &cfg);
    proof {
        lemma_groups_nonempty(*req, cfg@);
    }
    assert(views(sweeps.tcp_groups@).len() == sweeps.tcp_groups@.len());
    assert(views(sweeps.udp_groups@).len() == sweeps.udp_groups@.len());
    let mut tests: Vec<TestSpec> = Vec::new();
    let mut i: usize = 0;
    while i < req.pairs.len()
        invariant
            i <= req.pairs@.len(),
            sweeps.tcp_groups@.len() > 0,
            sweeps.udp_groups@.len() > 0,
            views(tests@) == matrix_tests_to(*rd, *req, sweeps@, i as int),
        decreases req.pairs@.len() - i,
    {
        let pair = &req.pairs[i];
        let specs = specs_for_pair(rd, i, pair, req, &sweeps);
        let mut more = apply_wifi_to_all(specs, rd, req, pair.src.as_str(), pair.dst.as_str());
        tests.append(&mut more);
        i += 1;
    }
    cfg.tests = tests;
    cfg
}

} // verus!
