//! What the console's pages send and get.
use vstd::prelude::*;
use crate::config::{copy_udp_profiles, Config, RateMode, RateTargets, UdpProfile, UdpProfileView};
use crate::number::Double;
use crate::protocol::HostInfo;
use crate::text::{copy_numbers, copy_opt_text, copy_texts, group_views, opt_text, opt_view, views};

verus! {

/// One row of the matrix: a pair of interfaces and what to run on it.
#[derive(Clone, Debug, Default)]
pub struct PairSelection {
    /// The sending end of direction `ab`, such as `master:NAME=eth0`.
    pub src: String,
    pub dst: String,
    pub directions: Vec<String>,
    /// The threshold of direction `ab` while both directions run.
    pub rx_target_bidir_ab: String,
    pub rx_target_bidir_ba: String,
    /// The threshold on the sum of both directions while both run.
    pub rx_target_bidir_total: String,
    /// The UDP groups to run: zero is the default group, `n` the `n`th further group.
    pub udp_groups: Vec<usize>,
    /// The TCP groups to run, counted in the same way.
    pub tcp_groups: Vec<usize>,
    pub transports: Vec<String>,
    pub ip: Vec<String>,
}

/// Threshold and load of one interface, whatever pair it is in.
#[derive(Clone, Debug, Default)]
pub struct NicPolicySelection {
    pub endpoint: String,
    /// `1800` for Mbps, `90%` for a share of the negotiated speed.
    pub rx_target: String,
    pub udp_bandwidth: String,
    pub udp_length: String,
}

/// One further group of UDP parameters; it takes nothing from the default group.
#[derive(Clone, Debug, Default)]
pub struct UdpGroup {
    pub name: String,
    pub bandwidths: Vec<String>,
    pub lengths: Vec<String>,
    pub windows: Vec<String>,
    pub streams: u32,
}

/// One further group of TCP parameters; it takes nothing from the default group.
#[derive(Clone, Debug, Default)]
pub struct TcpGroup {
    pub name: String,
    pub windows: Vec<String>,
    pub streams: Vec<u32>,
}

/// Thresholds for one combination of Wi-Fi bands, in the current form or an older one.
#[derive(Clone, Debug, Default)]
pub struct WifiBandThreshold {
    pub master_band: String,
    pub agent_band: String,
    pub rx_target_master_to_agent_mbps: Double,
    pub rx_target_agent_to_master_mbps: Double,
    pub bidir_total_rx_target_mbps: Double,
    pub bidir_rx_target_master_to_agent_mbps: Double,
    pub bidir_rx_target_agent_to_master_mbps: Double,
    /// Older form: the sending band.
    pub src_band: String,
    /// Older form: the receiving band.
    pub dst_band: String,
    pub rx_target_mbps: Double,
    pub bidir_rx_target_mbps: Double,
}

/// Older form: thresholds for one pair of Wi-Fi interfaces.
#[derive(Clone, Debug, Default)]
pub struct WifiPairThreshold {
    pub src_endpoint: String,
    pub dst_endpoint: String,
    pub rx_target_ab_mbps: Double,
    pub rx_target_ba_mbps: Double,
    pub bidir_rx_target_ab_mbps: Double,
    pub bidir_rx_target_ba_mbps: Double,
}

/// One number, or a list of them.
#[derive(Debug)]
pub enum UiU32Values {
    One(u32),
    Many(Vec<u32>),
}

impl View for UiU32Values {
    type V = Seq<u32>;

    /// The numbers as a list.
    open spec fn view(&self) -> Seq<u32> {
        match self {
            UiU32Values::One(value) => seq![*value],
            UiU32Values::Many(values) => values@,
        }
    }
}

impl Clone for UiU32Values {
    fn clone(&self) -> (r: UiU32Values)
        ensures
            r@ == self@,
            r is Many == self is Many,
    {
        match self {
            UiU32Values::One(value) => UiU32Values::One(*value),
            UiU32Values::Many(values) => UiU32Values::Many(copy_numbers(values)),
        }
    }
}

impl Default for UiU32Values {
    fn default() -> (r: UiU32Values)
        ensures
            r@ == Seq::<u32>::empty(),
            r is Many,
    {
        UiU32Values::Many(Vec::new())
    }
}

impl UiU32Values {
    /// The numbers as a list.
    pub fn values(&self) -> (r: Vec<u32>)
        ensures
            r@ == self@,
    {
        match self {
            UiU32Values::One(value) => {
                let mut r: Vec<u32> = Vec::new();
                r.push(*value);
                assert(r@ =~= seq![*value]);
                r
            },
            UiU32Values::Many(values) => copy_numbers(values),
        }
    }
}

/// One complete set of parameters in a recipe.
#[derive(Debug, Default)]
pub struct UiRecipeProfile {
    pub window: Option<String>,
    pub length: Option<String>,
    pub bandwidth: Option<String>,
    pub streams: UiU32Values,
    pub tcp_streams: Option<UiU32Values>,
    pub udp_streams: Option<UiU32Values>,
}

/// What a [`UiRecipeProfile`] holds.
pub ghost struct UiRecipeProfileView {
    pub window: Option<Seq<char>>,
    pub length: Option<Seq<char>>,
    pub bandwidth: Option<Seq<char>>,
    pub streams: Seq<u32>,
    pub tcp_streams: Option<Seq<u32>>,
    pub udp_streams: Option<Seq<u32>>,
}

impl View for UiRecipeProfile {
    type V = UiRecipeProfileView;

    open spec fn view(&self) -> UiRecipeProfileView {
        UiRecipeProfileView {
            window: opt_text(self.window),
            length: opt_text(self.length),
            bandwidth: opt_text(self.bandwidth),
            streams: self.streams@,
            tcp_streams: opt_view(self.tcp_streams),
            udp_streams: opt_view(self.udp_streams),
        }
    }
}

impl Clone for UiRecipeProfile {
    fn clone(&self) -> (r: UiRecipeProfile)
        ensures
            r@ == self@,
    {
        UiRecipeProfile {
            window: copy_opt_text(&self.window),
            length: copy_opt_text(&self.length),
            bandwidth: copy_opt_text(&self.bandwidth),
            streams: self.streams.clone(),
            tcp_streams: copy_opt_ui_u32_values(&self.tcp_streams),
            udp_streams: copy_opt_ui_u32_values(&self.udp_streams),
        }
    }
}

/// Parameters that tasks refer to by id: complete profiles, or axes to cross.
#[derive(Debug, Default)]
pub struct UiRecipe {
    pub id: String,
    pub name: String,
    /// No longer in use.
    pub mode: String,
    pub profiles: Vec<UiRecipeProfile>,
    pub tcp_windows: Vec<String>,
    pub tcp_streams: Vec<u32>,
    pub bandwidths: Vec<String>,
    pub lengths: Vec<String>,
    pub windows: Vec<String>,
    pub udp_streams: Vec<u32>,
    pub udp_profiles: Vec<UdpProfile>,
}

/// What a [`UiRecipe`] holds.
pub ghost struct UiRecipeView {
    pub id: Seq<char>,
    pub name: Seq<char>,
    pub mode: Seq<char>,
    pub profiles: Seq<UiRecipeProfileView>,
    pub tcp_windows: Seq<Seq<char>>,
    pub tcp_streams: Seq<u32>,
    pub bandwidths: Seq<Seq<char>>,
    pub lengths: Seq<Seq<char>>,
    pub windows: Seq<Seq<char>>,
    pub udp_streams: Seq<u32>,
    pub udp_profiles: Seq<UdpProfileView>,
}

impl View for UiRecipe {
    type V = UiRecipeView;

    open spec fn view(&self) -> UiRecipeView {
        UiRecipeView {
            id: self.id@,
            name: self.name@,
            mode: self.mode@,
            profiles: views(self.profiles@),
            tcp_windows: views(self.tcp_windows@),
            tcp_streams: self.tcp_streams@,
            bandwidths: views(self.bandwidths@),
            lengths: views(self.lengths@),
            windows: views(self.windows@),
            udp_streams: self.udp_streams@,
            udp_profiles: views(self.udp_profiles@),
        }
    }
}

impl Clone for UiRecipe {
    fn clone(&self) -> (r: UiRecipe)
        ensures
            r@ == self@,
    {
        UiRecipe {
            id: self.id.clone(),
            name: self.name.clone(),
            mode: self.mode.clone(),
            profiles: copy_ui_recipe_profiles(&self.profiles),
            tcp_windows: copy_texts(&self.tcp_windows),
            tcp_streams: copy_numbers(&self.tcp_streams),
            bandwidths: copy_texts(&self.bandwidths),
            lengths: copy_texts(&self.lengths),
            windows: copy_texts(&self.windows),
            udp_streams: copy_numbers(&self.udp_streams),
            udp_profiles: copy_udp_profiles(&self.udp_profiles),
        }
    }
}

/// A copy of a list.
pub fn copy_ui_recipe_profiles(v: &Vec<UiRecipeProfile>) -> (r: Vec<UiRecipeProfile>)
    ensures
        views(r@) == views(v@),
{
    broadcast use group_views;

    let mut r: Vec<UiRecipeProfile> = Vec::new();
    let mut i: usize = 0;
    while i < v.len()
        invariant
            i <= v@.len(),
            views(r@) == views(v@).take(i as int),
        decreases v@.len() - i,
    {
        r.push(v[i].clone());
        assert(views(v@).take(i as int).push(v@[i as int]@) =~= views(v@).take(i + 1));
        i += 1;
    }
    assert(views(v@).take(i as int) =~= views(v@));
    r
}

/// A copy of an optional value.
pub fn copy_opt_ui_u32_values(v: &Option<UiU32Values>) -> (r: Option<UiU32Values>)
    ensures
        opt_view(r) == opt_view(*v),
{
    match v {
        Some(x) => Some(x.clone()),
        None => None,
    }
}

/// The recipes by protocol.
#[derive(Clone, Debug, Default)]
pub struct UiRecipes {
    pub tcp: Vec<UiRecipe>,
    pub udp: Vec<UiRecipe>,
    pub ping: Vec<UiRecipe>,
}

/// A pair of interfaces in a link set.
#[derive(Clone, Debug, Default)]
pub struct UiPairRef {
    pub id: String,
    pub src: String,
    pub dst: String,
}

/// A named collection of pairs.
#[derive(Clone, Debug, Default)]
pub struct UiLinkSet {
    pub id: String,
    pub name: String,
    pub pair_refs: Vec<UiPairRef>,
}

/// One task of a suite.
#[derive(Clone, Debug, Default)]
pub struct UiTask {
    pub id: String,
    pub name: String,
    pub protocol: String,
    pub transports: Vec<String>,
    pub directions: Vec<String>,
    pub ip: Vec<String>,
    pub recipe_ids: Vec<String>,
    pub rx_target_bidir_ab: String,
    pub rx_target_bidir_ba: String,
    pub rx_target_bidir_total: String,
    pub rate_targets_mbps: Option<RateTargets>,
    pub rate_mode: Option<RateMode>,
    pub duration: Option<u64>,
    pub ping_count: Option<u32>,
    pub ping_payload_sizes: Option<Vec<u32>>,
}

/// A list of tasks.
#[derive(Clone, Debug, Default)]
pub struct UiSuite {
    pub id: String,
    pub name: String,
    pub note: String,
    pub execution: String,
    pub order: Vec<String>,
    pub tasks: Vec<UiTask>,
}

/// A suite assigned to a link set, or to some pairs of it.
#[derive(Clone, Debug, Default)]
pub struct UiBinding {
    pub id: String,
    pub link_set_id: String,
    pub suite_id: String,
    pub mode: String,
    pub order: i64,
    pub pair_ids: Vec<String>,
}

/// A suite plan.
#[derive(Clone, Debug, Default)]
pub struct UiPlan {
    pub ui_plan_version: u32,
    pub link_sets: Vec<UiLinkSet>,
    pub recipes: UiRecipes,
    pub suites: Vec<UiSuite>,
    pub bindings: Vec<UiBinding>,
    pub plan_hash: Option<String>,
}

/// Everything a page asks for in one run: a matrix of pairs, or a suite plan.
#[derive(Clone, Debug, Default)]
pub struct RunRequest {
    pub pairs: Vec<PairSelection>,
    pub nic_policies: Vec<NicPolicySelection>,
    /// Seconds of one test.
    pub duration: u64,
    pub tcp_windows: Vec<String>,
    pub tcp_streams: Vec<u32>,
    pub udp_bandwidths: Vec<String>,
    pub udp_lengths: Vec<String>,
    pub udp_windows: Vec<String>,
    pub udp_streams: u32,
    pub udp_groups: Vec<UdpGroup>,
    pub tcp_groups: Vec<TcpGroup>,
    /// Zero keeps the configured count.
    pub ping_count: u32,
    pub ping_payload_sizes: Vec<u32>,
    /// Older form of `ping_wired_small_max_rtt_ms`.
    pub ping_max_rtt_ms: Double,
    pub ping_small_max_bytes: u32,
    pub ping_medium_max_bytes: u32,
    pub ping_wired_small_avg_rtt_ms: Double,
    pub ping_wired_small_max_rtt_ms: Double,
    pub ping_wired_medium_avg_rtt_ms: Double,
    pub ping_wired_medium_max_rtt_ms: Double,
    pub ping_wired_large_avg_rtt_ms: Double,
    pub ping_wired_large_max_rtt_ms: Double,
    pub ping_wifi_small_avg_rtt_ms: Double,
    pub ping_wifi_small_max_rtt_ms: Double,
    pub ping_wifi_medium_avg_rtt_ms: Double,
    pub ping_wifi_medium_max_rtt_ms: Double,
    pub ping_wifi_large_avg_rtt_ms: Double,
    pub ping_wifi_large_max_rtt_ms: Double,
    pub wifi_pair_rx_target_mbps: Double,
    pub wifi_pair_bidir_rx_target_mbps: Double,
    pub wifi_pair_bidir_total_rx_target_mbps: Double,
    pub wifi_band_thresholds: Vec<WifiBandThreshold>,
    pub wifi_pair_thresholds: Vec<WifiPairThreshold>,
    /// Thresholds pinned by a project; they replace the configured ones even where all are missing.
    pub global_rate_targets: Option<RateTargets>,
    pub global_rate_mode: Option<RateMode>,
    /// UDP loads pinned by a project.
    pub udp_profiles: Option<Vec<UdpProfile>>,
    pub limit_udp_by_link_speed: bool,
    pub resume: bool,
    pub screenshot: bool,
    pub ui_plan: Option<UiPlan>,
    /// The configuration that a project was saved with, as JSON. It is carried unread: what it says is
    /// to be put over the console's own by [`with_baseline`](crate::baseline::with_baseline) before the
    /// request is compiled.
    pub master_config: Option<String>,
    pub plan_hash: Option<String>,
}

/// The duration of a test where a request gives none.
pub fn default_duration() -> (r: u64)
    ensures
        r == 180,
{
    180
}

/// The number of streams where a request gives none.
pub fn default_streams() -> (r: u32)
    ensures
        r == 1,
{
    1
}

/// What the console knows: its configuration, the agent's address and both hosts.
#[derive(Clone, Debug, Default)]
pub struct UiState {
    pub cfg: Config,
    pub agent_host: String,
    pub master: HostInfo,
    pub agent: HostInfo,
}

/// How the console is started.
#[derive(Clone, Debug, Default)]
pub struct UiOpts {
    pub bind: String,
    pub port: u16,
    pub config_path: Option<String>,
    /// The token towards the agent; `None` keeps the configured one.
    pub agent_token: Option<String>,
    /// The token a browser needs; no authentication where empty.
    pub ui_token: String,
}

} // verus!
