//! The bench's configuration: what to run, with which parameters and against which thresholds.
use vstd::prelude::*;
use crate::number::{keep_usable, usable_only, Double};
use crate::text::{
    copy_numbers, copy_opt_numbers, copy_opt_text, copy_opt_texts, copy_texts, group_views,
    opt_numbers, opt_text, opt_texts, opt_view, opt_views, same, texts, views,
};

verus! {

/// How measured rates are judged.
#[derive(Clone, Copy, Debug, Default, PartialEq, Eq, Structural)]
pub enum RateMode {
    #[default]
    Auto,
    Observe,
    Discover,
    Verify,
}

/// Rate thresholds in Mbps by direction; `forward` stands in for a missing `ab`.
#[derive(Clone, Copy, Debug, PartialEq, Eq, Structural)]
pub struct RateTargets {
    pub forward: Option<Double>,
    pub ab: Option<Double>,
    pub ba: Option<Double>,
}

impl RateTargets {
    /// No thresholds at all.
    pub open spec fn none() -> RateTargets {
        RateTargets { forward: None, ab: None, ba: None }
    }

    /// The threshold of a direction; a value that no rate can be held to counts as missing.
    pub open spec fn target(self, dir: Seq<char>) -> Option<Double> {
        if dir == "ab"@ {
            usable_only(if self.ab is Some {
                self.ab
            } else {
                self.forward
            })
        } else if dir == "ba"@ {
            usable_only(self.ba)
        } else {
            None
        }
    }

    /// The threshold of a direction.
    pub fn for_direction(&self, dir: &str) -> (r: Option<Double>)
        ensures
            r == self.target(dir@),
    {
        if same(dir, "ab") {
            if self.ab.is_some() {
                keep_usable(self.ab)
            } else {
                keep_usable(self.forward)
            }
        } else if same(dir, "ba") {
            keep_usable(self.ba)
        } else {
            None
        }
    }
}

impl Default for RateTargets {
    fn default() -> (r: RateTargets)
        ensures
            r == RateTargets::none(),
    {
        RateTargets { forward: None, ab: None, ba: None }
    }
}

/// A threshold on the sum of both directions, as it was given.
#[derive(Clone, Copy, Debug, PartialEq, Eq, Structural)]
pub enum TotalTarget {
    /// Given as a total.
    Total(Double),
    /// Given by direction: the total is the sum.
    Sum(Double, Double),
    /// Given once for either direction: the total is twice the value.
    Twice(Double),
}

/// UDP bandwidths by direction; `forward` stands in for a missing `ab`.
#[derive(Debug, Default)]
pub struct DirectionalBandwidth {
    pub forward: Option<String>,
    pub ab: Option<String>,
    pub ba: Option<String>,
}

/// What a [`DirectionalBandwidth`] holds.
pub ghost struct DirectionalBandwidthView {
    pub forward: Option<Seq<char>>,
    pub ab: Option<Seq<char>>,
    pub ba: Option<Seq<char>>,
}

impl View for DirectionalBandwidth {
    type V = DirectionalBandwidthView;

    open spec fn view(&self) -> DirectionalBandwidthView {
        DirectionalBandwidthView {
            forward: opt_text(self.forward),
            ab: opt_text(self.ab),
            ba: opt_text(self.ba),
        }
    }
}

impl Clone for DirectionalBandwidth {
    fn clone(&self) -> (r: DirectionalBandwidth)
        ensures
            r@ == self@,
    {
        DirectionalBandwidth {
            forward: copy_opt_text(&self.forward),
            ab: copy_opt_text(&self.ab),
            ba: copy_opt_text(&self.ba),
        }
    }
}

impl DirectionalBandwidthView {
    /// The bandwidth of a direction.
    pub open spec fn bandwidth(self, dir: Seq<char>) -> Option<Seq<char>> {
        if dir == "ab"@ {
            if self.ab is Some {
                self.ab
            } else {
                self.forward
            }
        } else if dir == "ba"@ {
            self.ba
        } else {
            None
        }
    }
}

impl DirectionalBandwidth {
    /// The bandwidth of a direction.
    pub fn for_direction(&self, dir: &str) -> (r: Option<String>)
        ensures
            opt_text(r) == self@.bandwidth(dir@),
    {
        if same(dir, "ab") {
            if self.ab.is_some() {
                copy_opt_text(&self.ab)
            } else {
                copy_opt_text(&self.forward)
            }
        } else if same(dir, "ba") {
            copy_opt_text(&self.ba)
        } else {
            None
        }
    }
}

/// Thresholds and bandwidths for a pair of roles, written `A<->B`.
#[derive(Debug, Default)]
pub struct RoleProfile {
    pub pair: String,
    pub rx_target_mbps: RateTargets,
    pub udp_bandwidth: DirectionalBandwidth,
}

/// What a [`RoleProfile`] holds.
pub ghost struct RoleProfileView {
    pub pair: Seq<char>,
    pub rx_target_mbps: RateTargets,
    pub udp_bandwidth: DirectionalBandwidthView,
}

impl View for RoleProfile {
    type V = RoleProfileView;

    open spec fn view(&self) -> RoleProfileView {
        RoleProfileView {
            pair: self.pair@,
            rx_target_mbps: self.rx_target_mbps,
            udp_bandwidth: self.udp_bandwidth@,
        }
    }
}

impl Clone for RoleProfile {
    fn clone(&self) -> (r: RoleProfile)
        ensures
            r@ == self@,
    {
        RoleProfile {
            pair: self.pair.clone(),
            rx_target_mbps: self.rx_target_mbps,
            udp_bandwidth: self.udp_bandwidth.clone(),
        }
    }
}

/// Threshold and load for one interface of one host.
#[derive(Debug, Default)]
pub struct NicProfile {
    pub host: String,
    pub name: String,
    /// Where not empty, the interface must have this address.
    pub ipv4: String,
    pub rx_target_mbps: Option<Double>,
    pub rx_target_percent: Option<Double>,
    pub udp_bandwidth: Option<String>,
    pub udp_length: Option<String>,
}

/// What a [`NicProfile`] holds.
pub ghost struct NicProfileView {
    pub host: Seq<char>,
    pub name: Seq<char>,
    pub ipv4: Seq<char>,
    pub rx_target_mbps: Option<Double>,
    pub rx_target_percent: Option<Double>,
    pub udp_bandwidth: Option<Seq<char>>,
    pub udp_length: Option<Seq<char>>,
}

impl View for NicProfile {
    type V = NicProfileView;

    open spec fn view(&self) -> NicProfileView {
        NicProfileView {
            host: self.host@,
            name: self.name@,
            ipv4: self.ipv4@,
            rx_target_mbps: self.rx_target_mbps,
            rx_target_percent: self.rx_target_percent,
            udp_bandwidth: opt_text(self.udp_bandwidth),
            udp_length: opt_text(self.udp_length),
        }
    }
}

impl Clone for NicProfile {
    fn clone(&self) -> (r: NicProfile)
        ensures
            r@ == self@,
    {
        NicProfile {
            host: self.host.clone(),
            name: self.name.clone(),
            ipv4: self.ipv4.clone(),
            rx_target_mbps: self.rx_target_mbps,
            rx_target_percent: self.rx_target_percent,
            udp_bandwidth: copy_opt_text(&self.udp_bandwidth),
            udp_length: copy_opt_text(&self.udp_length),
        }
    }
}

/// Profiles by role pair and by interface.
#[derive(Debug, Default)]
pub struct LinkProfiles {
    pub by_role: Vec<RoleProfile>,
    pub by_nic: Vec<NicProfile>,
}

/// What a [`LinkProfiles`] holds.
pub ghost struct LinkProfilesView {
    pub by_role: Seq<RoleProfileView>,
    pub by_nic: Seq<NicProfileView>,
}

impl View for LinkProfiles {
    type V = LinkProfilesView;

    open spec fn view(&self) -> LinkProfilesView {
        LinkProfilesView {
            by_role: views(self.by_role@),
            by_nic: views(self.by_nic@),
        }
    }
}

impl Clone for LinkProfiles {
    fn clone(&self) -> (r: LinkProfiles)
        ensures
            r@ == self@,
    {
        LinkProfiles {
            by_role: copy_role_profiles(&self.by_role),
            by_nic: copy_nic_profiles(&self.by_nic),
        }
    }
}

/// One UDP load: `-b`, and `-l` and `-w` where they are given.
#[derive(Debug, Default)]
pub struct UdpProfile {
    pub bandwidth: String,
    pub length: Option<String>,
    pub window: Option<String>,
}

/// What a [`UdpProfile`] holds.
pub ghost struct UdpProfileView {
    pub bandwidth: Seq<char>,
    pub length: Option<Seq<char>>,
    pub window: Option<Seq<char>>,
}

impl View for UdpProfile {
    type V = UdpProfileView;

    open spec fn view(&self) -> UdpProfileView {
        UdpProfileView {
            bandwidth: self.bandwidth@,
            length: opt_text(self.length),
            window: opt_text(self.window),
        }
    }
}

impl Clone for UdpProfile {
    fn clone(&self) -> (r: UdpProfile)
        ensures
            r@ == self@,
    {
        UdpProfile {
            bandwidth: self.bandwidth.clone(),
            length: copy_opt_text(&self.length),
            window: copy_opt_text(&self.window),
        }
    }
}

/// Which part of a suite plan a test came from.
#[derive(Debug, Default)]
pub struct UiOrigin {
    pub pair_id: String,
    pub link_set_id: String,
    pub link_set_name: String,
    pub binding_id: String,
    pub suite_id: String,
    pub task_id: String,
    pub recipe_id: String,
}

/// What a [`UiOrigin`] holds.
pub ghost struct UiOriginView {
    pub pair_id: Seq<char>,
    pub link_set_id: Seq<char>,
    pub link_set_name: Seq<char>,
    pub binding_id: Seq<char>,
    pub suite_id: Seq<char>,
    pub task_id: Seq<char>,
    pub recipe_id: Seq<char>,
}

impl View for UiOrigin {
    type V = UiOriginView;

    open spec fn view(&self) -> UiOriginView {
        UiOriginView {
            pair_id: self.pair_id@,
            link_set_id: self.link_set_id@,
            link_set_name: self.link_set_name@,
            binding_id: self.binding_id@,
            suite_id: self.suite_id@,
            task_id: self.task_id@,
            recipe_id: self.recipe_id@,
        }
    }
}

impl Clone for UiOrigin {
    fn clone(&self) -> (r: UiOrigin)
        ensures
            r@ == self@,
    {
        UiOrigin {
            pair_id: self.pair_id.clone(),
            link_set_id: self.link_set_id.clone(),
            link_set_name: self.link_set_name.clone(),
            binding_id: self.binding_id.clone(),
            suite_id: self.suite_id.clone(),
            task_id: self.task_id.clone(),
            recipe_id: self.recipe_id.clone(),
        }
    }
}

impl UiOriginView {
    /// Whether no part of a plan is named.
    pub open spec fn vacant(self) -> bool {
        self.pair_id.len() == 0 && self.link_set_id.len() == 0 && self.link_set_name.len() == 0
            && self.binding_id.len() == 0 && self.suite_id.len() == 0 && self.task_id.len() == 0
            && self.recipe_id.len() == 0
    }
}

impl UiOrigin {
    /// Whether no part of a plan is named.
    pub fn is_empty(&self) -> (r: bool)
        ensures
            r == self@.vacant(),
    {
        self.pair_id.as_str().is_empty() && self.link_set_id.as_str().is_empty()
            && self.link_set_name.as_str().is_empty() && self.binding_id.as_str().is_empty()
            && self.suite_id.as_str().is_empty() && self.task_id.as_str().is_empty()
            && self.recipe_id.as_str().is_empty()
    }
}

/// One text, or a list of them.
#[derive(Debug)]
pub enum OneOrMany {
    One(String),
    Many(Vec<String>),
}

impl View for OneOrMany {
    type V = Seq<Seq<char>>;

    /// The texts as a list.
    open spec fn view(&self) -> Seq<Seq<char>> {
        match self {
            OneOrMany::One(s) => seq![s@],
            OneOrMany::Many(v) => texts(v@),
        }
    }
}

impl Clone for OneOrMany {
    fn clone(&self) -> (r: OneOrMany)
        ensures
            r@ == self@,
            r is Many == self is Many,
    {
        match self {
            OneOrMany::One(s) => OneOrMany::One(s.clone()),
            OneOrMany::Many(v) => OneOrMany::Many(copy_texts(v)),
        }
    }
}

impl Default for OneOrMany {
    fn default() -> (r: OneOrMany)
        ensures
            r@ == Seq::<Seq<char>>::empty(),
            r is Many,
    {
        broadcast use group_views;

        OneOrMany::Many(Vec::new())
    }
}

impl OneOrMany {
    /// The texts as a list.
    pub fn to_list(&self) -> (r: Vec<String>)
        ensures
            texts(r@) == self@,
    {
        match self {
            OneOrMany::One(s) => {
                let mut r: Vec<String> = Vec::new();
                r.push(s.clone());
                assert(texts(r@) =~= seq![s@]);
                r
            },
            OneOrMany::Many(v) => copy_texts(v),
        }
    }
}

/// One test to run.
#[derive(Debug, Default)]
pub struct TestSpec {
    pub name: String,
    pub src: String,
    pub dst: String,
    pub direction: OneOrMany,
    pub kinds: Vec<String>,
    pub transports: Vec<String>,
    pub ip: Vec<String>,
    pub streams: u32,
    pub tcp_streams: Option<u32>,
    pub udp_streams: Option<u32>,
    pub iperf_duration: Option<u64>,
    pub ping_count: Option<u32>,
    pub ping_payload_sizes: Option<Vec<u32>>,
    pub tcp_windows: Option<Vec<String>>,
    pub udp_profiles: Option<Vec<UdpProfile>>,
    pub rate_mode: Option<RateMode>,
    pub rate_targets_mbps: Option<RateTargets>,
    pub rate_targets_bidir_mbps: Option<RateTargets>,
    pub rate_target_bidir_total_mbps: Option<TotalTarget>,
    pub link_group: Option<String>,
    pub origin: Option<UiOrigin>,
}

/// What a [`TestSpec`] holds.
pub ghost struct TestSpecView {
    pub name: Seq<char>,
    pub src: Seq<char>,
    pub dst: Seq<char>,
    pub direction: Seq<Seq<char>>,
    /// Whether the directions stand in a list rather than alone.
    pub direction_listed: bool,
    pub kinds: Seq<Seq<char>>,
    pub transports: Seq<Seq<char>>,
    pub ip: Seq<Seq<char>>,
    pub streams: u32,
    pub tcp_streams: Option<u32>,
    pub udp_streams: Option<u32>,
    pub iperf_duration: Option<u64>,
    pub ping_count: Option<u32>,
    pub ping_payload_sizes: Option<Seq<u32>>,
    pub tcp_windows: Option<Seq<Seq<char>>>,
    pub udp_profiles: Option<Seq<UdpProfileView>>,
    pub rate_mode: Option<RateMode>,
    pub rate_targets_mbps: Option<RateTargets>,
    pub rate_targets_bidir_mbps: Option<RateTargets>,
    pub rate_target_bidir_total_mbps: Option<TotalTarget>,
    pub link_group: Option<Seq<char>>,
    pub origin: Option<UiOriginView>,
}

impl View for TestSpec {
    type V = TestSpecView;

    open spec fn view(&self) -> TestSpecView {
        TestSpecView {
            name: self.name@,
            src: self.src@,
            dst: self.dst@,
            direction: self.direction@,
            direction_listed: self.direction is Many,
            kinds: views(self.kinds@),
            transports: views(self.transports@),
            ip: views(self.ip@),
            streams: self.streams,
            tcp_streams: self.tcp_streams,
            udp_streams: self.udp_streams,
            iperf_duration: self.iperf_duration,
            ping_count: self.ping_count,
            ping_payload_sizes: opt_numbers(self.ping_payload_sizes),
            tcp_windows: opt_texts(self.tcp_windows),
            udp_profiles: opt_views(self.udp_profiles),
            rate_mode: self.rate_mode,
            rate_targets_mbps: self.rate_targets_mbps,
            rate_targets_bidir_mbps: self.rate_targets_bidir_mbps,
            rate_target_bidir_total_mbps: self.rate_target_bidir_total_mbps,
            link_group: opt_text(self.link_group),
            origin: opt_view(self.origin),
        }
    }
}

impl Clone for TestSpec {
    fn clone(&self) -> (r: TestSpec)
        ensures
            r@ == self@,
    {
        TestSpec {
            name: self.name.clone(),
            src: self.src.clone(),
            dst: self.dst.clone(),
            direction: self.direction.clone(),
            kinds: copy_texts(&self.kinds),
            transports: copy_texts(&self.transports),
            ip: copy_texts(&self.ip),
            streams: self.streams,
            tcp_streams: self.tcp_streams,
            udp_streams: self.udp_streams,
            iperf_duration: self.iperf_duration,
            ping_count: self.ping_count,
            ping_payload_sizes: copy_opt_numbers(&self.ping_payload_sizes),
            tcp_windows: copy_opt_texts(&self.tcp_windows),
            udp_profiles: copy_opt_udp_profiles(&self.udp_profiles),
            rate_mode: self.rate_mode,
            rate_targets_mbps: self.rate_targets_mbps,
            rate_targets_bidir_mbps: self.rate_targets_bidir_mbps,
            rate_target_bidir_total_mbps: self.rate_target_bidir_total_mbps,
            link_group: copy_opt_text(&self.link_group),
            origin: copy_opt_ui_origin(&self.origin),
        }
    }
}

/// How often and how large to ping, and which round-trip times pass.
#[derive(Debug, Default)]
pub struct PingCfg {
    pub count: u32,
    pub payload_sizes: Vec<u32>,
    pub small_max_bytes: u32,
    pub medium_max_bytes: u32,
    pub wired_small_avg_rtt_ms: Double,
    pub max_rtt_ms: Double,
    pub wired_medium_avg_rtt_ms: Double,
    pub wired_medium_max_rtt_ms: Double,
    pub wired_large_avg_rtt_ms: Double,
    pub wired_large_max_rtt_ms: Double,
    pub wifi_small_avg_rtt_ms: Double,
    pub wifi_small_max_rtt_ms: Double,
    pub wifi_medium_avg_rtt_ms: Double,
    pub wifi_medium_max_rtt_ms: Double,
    pub wifi_large_avg_rtt_ms: Double,
    pub wifi_large_max_rtt_ms: Double,
}

/// What a [`PingCfg`] holds.
pub ghost struct PingCfgView {
    pub count: u32,
    pub payload_sizes: Seq<u32>,
    pub small_max_bytes: u32,
    pub medium_max_bytes: u32,
    pub wired_small_avg_rtt_ms: Double,
    pub max_rtt_ms: Double,
    pub wired_medium_avg_rtt_ms: Double,
    pub wired_medium_max_rtt_ms: Double,
    pub wired_large_avg_rtt_ms: Double,
    pub wired_large_max_rtt_ms: Double,
    pub wifi_small_avg_rtt_ms: Double,
    pub wifi_small_max_rtt_ms: Double,
    pub wifi_medium_avg_rtt_ms: Double,
    pub wifi_medium_max_rtt_ms: Double,
    pub wifi_large_avg_rtt_ms: Double,
    pub wifi_large_max_rtt_ms: Double,
}

impl View for PingCfg {
    type V = PingCfgView;

    open spec fn view(&self) -> PingCfgView {
        PingCfgView {
            count: self.count,
            payload_sizes: self.payload_sizes@,
            small_max_bytes: self.small_max_bytes,
            medium_max_bytes: self.medium_max_bytes,
            wired_small_avg_rtt_ms: self.wired_small_avg_rtt_ms,
            max_rtt_ms: self.max_rtt_ms,
            wired_medium_avg_rtt_ms: self.wired_medium_avg_rtt_ms,
            wired_medium_max_rtt_ms: self.wired_medium_max_rtt_ms,
            wired_large_avg_rtt_ms: self.wired_large_avg_rtt_ms,
            wired_large_max_rtt_ms: self.wired_large_max_rtt_ms,
            wifi_small_avg_rtt_ms: self.wifi_small_avg_rtt_ms,
            wifi_small_max_rtt_ms: self.wifi_small_max_rtt_ms,
            wifi_medium_avg_rtt_ms: self.wifi_medium_avg_rtt_ms,
            wifi_medium_max_rtt_ms: self.wifi_medium_max_rtt_ms,
            wifi_large_avg_rtt_ms: self.wifi_large_avg_rtt_ms,
            wifi_large_max_rtt_ms: self.wifi_large_max_rtt_ms,
        }
    }
}

impl Clone for PingCfg {
    fn clone(&self) -> (r: PingCfg)
        ensures
            r@ == self@,
    {
        PingCfg {
            count: self.count,
            payload_sizes: copy_numbers(&self.payload_sizes),
            small_max_bytes: self.small_max_bytes,
            medium_max_bytes: self.medium_max_bytes,
            wired_small_avg_rtt_ms: self.wired_small_avg_rtt_ms,
            max_rtt_ms: self.max_rtt_ms,
            wired_medium_avg_rtt_ms: self.wired_medium_avg_rtt_ms,
            wired_medium_max_rtt_ms: self.wired_medium_max_rtt_ms,
            wired_large_avg_rtt_ms: self.wired_large_avg_rtt_ms,
            wired_large_max_rtt_ms: self.wired_large_max_rtt_ms,
            wifi_small_avg_rtt_ms: self.wifi_small_avg_rtt_ms,
            wifi_small_max_rtt_ms: self.wifi_small_max_rtt_ms,
            wifi_medium_avg_rtt_ms: self.wifi_medium_avg_rtt_ms,
            wifi_medium_max_rtt_ms: self.wifi_medium_max_rtt_ms,
            wifi_large_avg_rtt_ms: self.wifi_large_avg_rtt_ms,
            wifi_large_max_rtt_ms: self.wifi_large_max_rtt_ms,
        }
    }
}

/// How rates are judged and how far a link may be loaded.
#[derive(Clone, Copy, Debug, Default, PartialEq, Eq, Structural)]
pub struct RateCheckCfg {
    pub mode: RateMode,
    pub targets_mbps: RateTargets,
    pub cpe_path_ceiling_mbps: Double,
    pub wifi_payload_ceiling_mbps: Double,
    pub evb_usb_to_eth_target_mbps: Double,
    pub evb_eth_to_usb_target_mbps: Double,
}

/// The load generator's settings.
#[derive(Debug, Default)]
pub struct IperfCfg {
    pub duration: u64,
    pub tcp_windows: Vec<String>,
    pub udp_profiles: Vec<UdpProfile>,
    pub rate_check: RateCheckCfg,
}

/// What a [`IperfCfg`] holds.
pub ghost struct IperfCfgView {
    pub duration: u64,
    pub tcp_windows: Seq<Seq<char>>,
    pub udp_profiles: Seq<UdpProfileView>,
    pub rate_check: RateCheckCfg,
}

impl View for IperfCfg {
    type V = IperfCfgView;

    open spec fn view(&self) -> IperfCfgView {
        IperfCfgView {
            duration: self.duration,
            tcp_windows: views(self.tcp_windows@),
            udp_profiles: views(self.udp_profiles@),
            rate_check: self.rate_check,
        }
    }
}

impl Clone for IperfCfg {
    fn clone(&self) -> (r: IperfCfg)
        ensures
            r@ == self@,
    {
        IperfCfg {
            duration: self.duration,
            tcp_windows: copy_texts(&self.tcp_windows),
            udp_profiles: copy_udp_profiles(&self.udp_profiles),
            rate_check: self.rate_check,
        }
    }
}

/// The whole configuration.
#[derive(Debug, Default)]
pub struct Config {
    pub agent_host: String,
    pub agent_port: u16,
    pub agent_token: String,
    pub ipv4_prefixes: Vec<String>,
    pub screenshot: bool,
    pub limit_udp_by_link_speed: bool,
    pub resume: bool,
    pub require_same_subnet_for_iperf: bool,
    pub iperf: IperfCfg,
    pub ping: PingCfg,
    pub link_profiles: LinkProfiles,
    /// Automatic pairing rules, carried unread.
    pub pairs: Option<String>,
    /// Parameters of the automatic pairing, carried unread.
    pub universal_params: Option<String>,
    pub tests: Vec<TestSpec>,
}

/// What a [`Config`] holds.
pub ghost struct ConfigView {
    pub agent_host: Seq<char>,
    pub agent_port: u16,
    pub agent_token: Seq<char>,
    pub ipv4_prefixes: Seq<Seq<char>>,
    pub screenshot: bool,
    pub limit_udp_by_link_speed: bool,
    pub resume: bool,
    pub require_same_subnet_for_iperf: bool,
    pub iperf: IperfCfgView,
    pub ping: PingCfgView,
    pub link_profiles: LinkProfilesView,
    pub pairs: Option<Seq<char>>,
    pub universal_params: Option<Seq<char>>,
    pub tests: Seq<TestSpecView>,
}

impl View for Config {
    type V = ConfigView;

    open spec fn view(&self) -> ConfigView {
        ConfigView {
            agent_host: self.agent_host@,
            agent_port: self.agent_port,
            agent_token: self.agent_token@,
            ipv4_prefixes: views(self.ipv4_prefixes@),
            screenshot: self.screenshot,
            limit_udp_by_link_speed: self.limit_udp_by_link_speed,
            resume: self.resume,
            require_same_subnet_for_iperf: self.require_same_subnet_for_iperf,
            iperf: self.iperf@,
            ping: self.ping@,
            link_profiles: self.link_profiles@,
            pairs: opt_text(self.pairs),
            universal_params: opt_text(self.universal_params),
            tests: views(self.tests@),
        }
    }
}

impl Clone for Config {
    fn clone(&self) -> (r: Config)
        ensures
            r@ == self@,
    {
        Config {
            agent_host: self.agent_host.clone(),
            agent_port: self.agent_port,
            agent_token: self.agent_token.clone(),
            ipv4_prefixes: copy_texts(&self.ipv4_prefixes),
            screenshot: self.screenshot,
            limit_udp_by_link_speed: self.limit_udp_by_link_speed,
            resume: self.resume,
            require_same_subnet_for_iperf: self.require_same_subnet_for_iperf,
            iperf: self.iperf.clone(),
            ping: self.ping.clone(),
            link_profiles: self.link_profiles.clone(),
            pairs: copy_opt_text(&self.pairs),
            universal_params: copy_opt_text(&self.universal_params),
            tests: copy_test_specs(&self.tests),
        }
    }
}

/// A copy of a list.
pub fn copy_role_profiles(v: &Vec<RoleProfile>) -> (r: Vec<RoleProfile>)
    ensures
        views(r@) == views(v@),
{
    broadcast use group_views;

    let mut r: Vec<RoleProfile> = Vec::new();
    let mut i: usize = 0;
    while i < v.len()
        invariant
            i <= v@.len(),
            views(r@) == views(v@).take(i as int),
        decreases v@.len() - i,
    {
        r.push(v[i].clone());
        assert(views(v@).take(i as int).push(v@[i as int]@) =~= views(v@).take(i + 1));
        i += 1;
    }
    assert(views(v@).take(i as int) =~= views(v@));
    r
}

/// A copy of a list.
pub fn copy_nic_profiles(v: &Vec<NicProfile>) -> (r: Vec<NicProfile>)
    ensures
        views(r@) == views(v@),
{
    broadcast use group_views;

    let mut r: Vec<NicProfile> = Vec::new();
    let mut i: usize = 0;
    while i < v.len()
        invariant
            i <= v@.len(),
            views(r@) == views(v@).take(i as int),
        decreases v@.len() - i,
    {
        r.push(v[i].clone());
        assert(views(v@).take(i as int).push(v@[i as int]@) =~= views(v@).take(i + 1));
        i += 1;
    }
    assert(views(v@).take(i as int) =~= views(v@));
    r
}

/// A copy of a list.
pub fn copy_udp_profiles(v: &Vec<UdpProfile>) -> (r: Vec<UdpProfile>)
    ensures
        views(r@) == views(v@),
{
    broadcast use group_views;

    let mut r: Vec<UdpProfile> = Vec::new();
    let mut i: usize = 0;
    while i < v.len()
        invariant
            i <= v@.len(),
            views(r@) == views(v@).take(i as int),
        decreases v@.len() - i,
    {
        r.push(v[i].clone());
        assert(views(v@).take(i as int).push(v@[i as int]@) =~= views(v@).take(i + 1));
        i += 1;
    }
    assert(views(v@).take(i as int) =~= views(v@));
    r
}

/// A copy of a list.
pub fn copy_test_specs(v: &Vec<TestSpec>) -> (r: Vec<TestSpec>)
    ensures
        views(r@) == views(v@),
{
    broadcast use group_views;

    let mut r: Vec<TestSpec> = Vec::new();
    let mut i: usize = 0;
    while i < v.len()
        invariant
            i <= v@.len(),
            views(r@) == views(v@).take(i as int),
        decreases v@.len() - i,
    {
        r.push(v[i].clone());
        assert(views(v@).take(i as int).push(v@[i as int]@) =~= views(v@).take(i + 1));
        i += 1;
    }
    assert(views(v@).take(i as int) =~= views(v@));
    r
}

/// A copy of an optional value.
pub fn copy_opt_ui_origin(v: &Option<UiOrigin>) -> (r: Option<UiOrigin>)
    ensures
        opt_view(r) == opt_view(*v),
{
    match v {
        Some(x) => Some(x.clone()),
        None => None,
    }
}

/// A copy of an optional list.
pub fn copy_opt_udp_profiles(v: &Option<Vec<UdpProfile>>) -> (r: Option<Vec<UdpProfile>>)
    ensures
        opt_views(r) == opt_views(*v),
{
    match v {
        Some(x) => Some(copy_udp_profiles(x)),
        None => None,
    }
}

} // verus!
