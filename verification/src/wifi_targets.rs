//! Thresholds for links between two Wi-Fi interfaces.
use vstd::prelude::*;
use vstd::string::*;
use crate::config::{RateTargets, TestSpec, TestSpecView, TotalTarget};
use crate::model::{NicPolicySelection, RunRequest, WifiBandThreshold, WifiPairThreshold};
use crate::number::{keep_usable, usable_only, Double};
use crate::readings::{look_up, reading, Endpoint, Readings, Side};
use crate::text::{same, trim, trimmed};
use crate::validate::{parse_rx_target, rx_target, RxTarget};
use crate::wifi::{
    band_of, canonical_wifi_band, nic_band, nic_is_wifi, normalized_wifi_band, wireless,
};

verus! {

/// The first of two values that is there.
pub open spec fn first_some<T>(a: Option<T>, b: Option<T>) -> Option<T> {
    if a is Some {
        a
    } else {
        b
    }
}

/// Both ends of a link, where both resolve to Wi-Fi interfaces.
pub open spec fn wifi_ends(rd: Readings, src: Seq<char>, dst: Seq<char>) -> Option<
    (Endpoint, Endpoint),
> {
    match (reading(rd.endpoints@, src), reading(rd.endpoints@, dst)) {
        (Ok(a), Ok(b)) => if wireless(a.nic) && wireless(b.nic) {
            Some((a, b))
        } else {
            None
        },
        _ => None,
    }
}

/// Both ends of a link, where both resolve to Wi-Fi interfaces.
pub fn wifi_endpoints<'a>(rd: &'a Readings, src: &str, dst: &str) -> (r: Option<
    (&'a Endpoint, &'a Endpoint),
>)
    ensures
        match r {
            Some(ends) => wifi_ends(*rd, src@, dst@) == Some((*ends.0, *ends.1)),
            None => wifi_ends(*rd, src@, dst@) is None,
        },
{
    match look_up(&rd.endpoints, src) {
        Err(_) => None,
        Ok(a) => match look_up(&rd.endpoints, dst) {
            Err(_) => None,
            Ok(b) => if nic_is_wifi(&a.nic) && nic_is_wifi(&b.nic) {
                Some((a, b))
            } else {
                None
            },
        },
    }
}

/// A threshold in Mbps that rates can be held to.
pub fn positive_wifi_target(value: Double) -> (r: Option<Double>)
    ensures
        r == usable_only(Some(value)),
{
    keep_usable(Some(value))
}

/// The index of the first policy of an endpoint from `i` on; the length where there is none.
pub open spec fn policy_index(
    policies: Seq<NicPolicySelection>,
    endpoint: Seq<char>,
    i: int,
) -> int
    decreases policies.len() - i,
{
    if i < 0 || i >= policies.len() {
        policies.len() as int
    } else if trimmed(policies[i].endpoint@) == endpoint {
        i
    } else {
        policy_index(policies, endpoint, i + 1)
    }
}

/// Whether the policy of an endpoint gives a threshold that comes to a rate: one in Mbps, or a share
/// of a speed that is known.
pub open spec fn override_resolves(rd: Readings, req: RunRequest, endpoint: Seq<char>) -> bool {
    let at = policy_index(req.nic_policies@, endpoint, 0);
    at < req.nic_policies@.len() && match rx_target(rd, req.nic_policies@[at].rx_target@) {
        Ok(Some(RxTarget::Mbps(_))) => true,
        Ok(Some(RxTarget::Percent(_))) => match reading(rd.endpoints@, endpoint) {
            Ok(end) => end.nic.speed_mbps > 0,
            Err(_) => false,
        },
        _ => false,
    }
}

/// Whether the policy of an endpoint gives a threshold that comes to a rate.
pub fn nic_rx_override_resolves(rd: &Readings, req: &RunRequest, endpoint: &str) -> (r: bool)
    ensures
        r == override_resolves(*rd, *req, endpoint@),
{
    let policies = &req.nic_policies;
    let mut i: usize = 0;
    while i < policies.len() && !same(trim(policies[i].endpoint.as_str()), endpoint)
        invariant
            i <= policies@.len(),
            policies@ == req.nic_policies@,
            policy_index(policies@, endpoint@, 0) == policy_index(policies@, endpoint@, i as int),
        decreases policies@.len() - i,
    {
        i += 1;
    }
    if i >= policies.len() {
        return false;
    }
    match parse_rx_target(rd, policies[i].rx_target.as_str()) {
        Ok(Some(RxTarget::Mbps(_))) => true,
        Ok(Some(RxTarget::Percent(_))) => match look_up(&rd.endpoints, endpoint) {
            Ok(end) => end.nic.speed_mbps > 0,
            Err(_) => false,
        },
        _ => false,
    }
}

/// The index of the first band rule of the older form for two bands from `i` on; the length where
/// there is none.
pub open spec fn older_rule_index(
    rules: Seq<WifiBandThreshold>,
    src_band: Seq<char>,
    dst_band: Seq<char>,
    i: int,
) -> int
    decreases rules.len() - i,
{
    if i < 0 || i >= rules.len() {
        rules.len() as int
    } else if band_of(rules[i].src_band@) == src_band && band_of(rules[i].dst_band@) == dst_band {
        i
    } else {
        older_rule_index(rules, src_band, dst_band, i + 1)
    }
}

/// The threshold that the band rules of the older form give from one band to another.
pub open spec fn older_band_target(
    rules: Seq<WifiBandThreshold>,
    src_band: Seq<char>,
    dst_band: Seq<char>,
) -> Option<Double> {
    let at = older_rule_index(rules, src_band, dst_band, 0);
    if at < rules.len() {
        usable_only(Some(rules[at].rx_target_mbps))
    } else {
        None
    }
}

/// The threshold that the band rules of the older form give from one band to another.
pub fn wifi_band_target(rules: &Vec<WifiBandThreshold>, src_band: &str, dst_band: &str) -> (r:
    Option<Double>)
    ensures
        r == older_band_target(rules@, src_band@, dst_band@),
{
    let mut i: usize = 0;
    while i < rules.len()
        invariant
            i <= rules@.len(),
            older_rule_index(rules@, src_band@, dst_band@, 0) == older_rule_index(
                rules@,
                src_band@,
                dst_band@,
                i as int,
            ),
        decreases rules@.len() - i,
    {
        if same(canonical_wifi_band(rules[i].src_band.as_str()), src_band) && same(
            canonical_wifi_band(rules[i].dst_band.as_str()),
            dst_band,
        ) {
            return positive_wifi_target(rules[i].rx_target_mbps);
        }
        i += 1;
    }
    None
}

/// The thresholds that the band table gives for a link.
#[derive(Clone, Copy, Debug, PartialEq, Eq, Structural)]
pub struct WifiBandPairTargets {
    pub single_ab: Option<Double>,
    pub single_ba: Option<Double>,
    /// On the sum of both directions while both run.
    pub bidir_total: Option<TotalTarget>,
}

/// A threshold on the sum, from one for each direction. One alone says nothing of the sum.
pub open spec fn total_of(ab: Option<Double>, ba: Option<Double>) -> Option<TotalTarget> {
    match (ab, ba) {
        (Some(ab), Some(ba)) => Some(TotalTarget::Sum(ab, ba)),
        _ => None,
    }
}

/// A threshold on the sum, from one for each direction.
pub fn migrate_bidir_pair_to_total(ab: Option<Double>, ba: Option<Double>) -> (r: Option<
    TotalTarget,
>)
    ensures
        r == total_of(ab, ba),
{
    match (ab, ba) {
        (Some(ab), Some(ba)) => Some(TotalTarget::Sum(ab, ba)),
        _ => None,
    }
}

/// A usable value as a total.
pub open spec fn given_total(value: Double) -> Option<TotalTarget> {
    match usable_only(Some(value)) {
        Some(x) => Some(TotalTarget::Total(x)),
        None => None,
    }
}

/// A usable value as a total.
pub fn as_total(value: Double) -> (r: Option<TotalTarget>)
    ensures
        r == given_total(value),
{
    match positive_wifi_target(value) {
        Some(x) => Some(TotalTarget::Total(x)),
        None => None,
    }
}

/// The index of the first band rule of the current form for two bands from `i` on; the length where
/// there is none.
pub open spec fn band_rule_index(
    rules: Seq<WifiBandThreshold>,
    master_band: Seq<char>,
    agent_band: Seq<char>,
    i: int,
) -> int
    decreases rules.len() - i,
{
    if i < 0 || i >= rules.len() {
        rules.len() as int
    } else if band_of(rules[i].master_band@) == master_band && band_of(rules[i].agent_band@)
        == agent_band {
        i
    } else {
        band_rule_index(rules, master_band, agent_band, i + 1)
    }
}

/// The thresholds that a band rule gives for a link that starts at the master, or at the agent.
pub open spec fn rule_targets(rule: WifiBandThreshold, from_master: bool) -> WifiBandPairTargets {
    let out = usable_only(Some(rule.rx_target_master_to_agent_mbps));
    let back = usable_only(Some(rule.rx_target_agent_to_master_mbps));
    let bidir_total = first_some(
        given_total(rule.bidir_total_rx_target_mbps),
        total_of(
            usable_only(Some(rule.bidir_rx_target_master_to_agent_mbps)),
            usable_only(Some(rule.bidir_rx_target_agent_to_master_mbps)),
        ),
    );
    if from_master {
        WifiBandPairTargets { single_ab: out, single_ba: back, bidir_total }
    } else {
        WifiBandPairTargets { single_ab: back, single_ba: out, bidir_total }
    }
}

/// The thresholds that the band table gives for a link between the hosts; none for a link within one
/// host or where no rule is about its bands.
pub open spec fn band_pair_targets(
    rules: Seq<WifiBandThreshold>,
    src: Endpoint,
    dst: Endpoint,
) -> WifiBandPairTargets {
    let from_master = src.side == Side::Master;
    let (master, agent) = if from_master {
        (src, dst)
    } else {
        (dst, src)
    };
    let at = band_rule_index(rules, nic_band(master.nic), nic_band(agent.nic), 0);
    if src.side == dst.side || at >= rules.len() {
        WifiBandPairTargets { single_ab: None, single_ba: None, bidir_total: None }
    } else {
        rule_targets(rules[at], from_master)
    }
}

/// The thresholds that the band table gives for a link.
pub fn wifi_band_pair_targets(
    rules: &Vec<WifiBandThreshold>,
    src: &Endpoint,
    dst: &Endpoint,
) -> (r: WifiBandPairTargets)
    ensures
        r == band_pair_targets(rules@, *src, *dst),
{
    let nothing = WifiBandPairTargets { single_ab: None, single_ba: None, bidir_total: None };
    if src.side == dst.side {
        return nothing;
    }
    let from_master = src.side == Side::Master;
    let master_band = if from_master {
        normalized_wifi_band(&src.nic)
    } else {
        normalized_wifi_band(&dst.nic)
    };
    let agent_band = if from_master {
        normalized_wifi_band(&dst.nic)
    } else {
        normalized_wifi_band(&src.nic)
    };
    let mut i: usize = 0;
    while i < rules.len() && !(same(
        canonical_wifi_band(rules[i].master_band.as_str()),
        master_band,
    ) && same(canonical_wifi_band(rules[i].agent_band.as_str()), agent_band))
        invariant
            i <= rules@.len(),
            band_rule_index(rules@, master_band@, agent_band@, 0) == band_rule_index(
                rules@,
                master_band@,
                agent_band@,
                i as int,
            ),
        decreases rules@.len() - i,
    {
        i += 1;
    }
    if i >= rules.len() {
        return nothing;
    }
    let rule = &rules[i];
    let out = positive_wifi_target(rule.rx_target_master_to_agent_mbps);
    let back = positive_wifi_target(rule.rx_target_agent_to_master_mbps);
    let total = as_total(rule.bidir_total_rx_target_mbps);
    let bidir_total = if total.is_some() {
        total
    } else {
        migrate_bidir_pair_to_total(
            positive_wifi_target(rule.bidir_rx_target_master_to_agent_mbps),
            positive_wifi_target(rule.bidir_rx_target_agent_to_master_mbps),
        )
    };
    if from_master {
        WifiBandPairTargets { single_ab: out, single_ba: back, bidir_total }
    } else {
        WifiBandPairTargets { single_ab: back, single_ba: out, bidir_total }
    }
}

/// The index of the first rule for a pair of interfaces from `i` on; the length where there is none.
pub open spec fn pair_rule_index(
    rules: Seq<WifiPairThreshold>,
    src: Seq<char>,
    dst: Seq<char>,
    i: int,
) -> int
    decreases rules.len() - i,
{
    if i < 0 || i >= rules.len() {
        rules.len() as int
    } else if trimmed(rules[i].src_endpoint@) == src && trimmed(rules[i].dst_endpoint@) == dst {
        i
    } else {
        pair_rule_index(rules, src, dst, i + 1)
    }
}

/// The thresholds that the rule of a pair of interfaces gives.
pub open spec fn pair_rule_targets(
    rules: Seq<WifiPairThreshold>,
    src: Seq<char>,
    dst: Seq<char>,
) -> WifiBandPairTargets {
    let at = pair_rule_index(rules, src, dst, 0);
    if at >= rules.len() {
        WifiBandPairTargets { single_ab: None, single_ba: None, bidir_total: None }
    } else {
        WifiBandPairTargets {
            single_ab: usable_only(Some(rules[at].rx_target_ab_mbps)),
            single_ba: usable_only(Some(rules[at].rx_target_ba_mbps)),
            bidir_total: total_of(
                usable_only(Some(rules[at].bidir_rx_target_ab_mbps)),
                usable_only(Some(rules[at].bidir_rx_target_ba_mbps)),
            ),
        }
    }
}

/// The thresholds that the rule of a pair of interfaces gives.
pub fn wifi_pair_rule_targets(rules: &Vec<WifiPairThreshold>, src: &str, dst: &str) -> (r:
    WifiBandPairTargets)
    ensures
        r == pair_rule_targets(rules@, src@, dst@),
{
    let mut i: usize = 0;
    while i < rules.len() && !(same(trim(rules[i].src_endpoint.as_str()), src) && same(
        trim(rules[i].dst_endpoint.as_str()),
        dst,
    ))
        invariant
            i <= rules@.len(),
            pair_rule_index(rules@, src@, dst@, 0) == pair_rule_index(
                rules@,
                src@,
                dst@,
                i as int,
            ),
        decreases rules@.len() - i,
    {
        i += 1;
    }
    if i >= rules.len() {
        return WifiBandPairTargets { single_ab: None, single_ba: None, bidir_total: None };
    }
    let rule = &rules[i];
    WifiBandPairTargets {
        single_ab: positive_wifi_target(rule.rx_target_ab_mbps),
        single_ba: positive_wifi_target(rule.rx_target_ba_mbps),
        bidir_total: migrate_bidir_pair_to_total(
            positive_wifi_target(rule.bidir_rx_target_ab_mbps),
            positive_wifi_target(rule.bidir_rx_target_ba_mbps),
        ),
    }
}

// ---------------------------------------------------------------------------
// Filling in thresholds
// ---------------------------------------------------------------------------

/// Whether a direction has a threshold in the end.
pub open spec fn targeted(targets: Option<RateTargets>, dir: Seq<char>) -> bool {
    targets is Some && targets->0.target(dir) is Some
}

/// Thresholds with one added for a direction that has none; others stay as they are.
pub open spec fn with_direction(
    targets: Option<RateTargets>,
    dir: Seq<char>,
    value: Option<Double>,
) -> Option<RateTargets> {
    let own = match targets {
        Some(own) => own,
        None => RateTargets::none(),
    };
    if value is None || targeted(targets, dir) {
        targets
    } else if dir == "ab"@ {
        Some(RateTargets { ab: value, ..own })
    } else if dir == "ba"@ {
        Some(RateTargets { ba: value, ..own })
    } else {
        Some(own)
    }
}

/// Whether a direction has a threshold in the end.
pub fn direction_already_targeted(targets: &Option<RateTargets>, dir: &str) -> (r: bool)
    ensures
        r == targeted(*targets, dir@),
{
    match targets {
        Some(own) => own.for_direction(dir).is_some(),
        None => false,
    }
}

/// Adds a threshold for a direction that has none.
pub fn fill_direction_target(spec: &mut TestSpec, dir: &str, value: Double)
    ensures
        final(spec)@ == (TestSpecView {
            rate_targets_mbps: with_direction(old(spec)@.rate_targets_mbps, dir@, Some(value)),
            ..old(spec)@
        }),
{
    if direction_already_targeted(&spec.rate_targets_mbps, dir) {
        return;
    }
    let mut own = match spec.rate_targets_mbps {
        Some(own) => own,
        None => RateTargets { forward: None, ab: None, ba: None },
    };
    if same(dir, "ab") {
        own.ab = Some(value);
    } else if same(dir, "ba") {
        own.ba = Some(value);
    }
    spec.rate_targets_mbps = Some(own);
}

/// Filling in a usable threshold gives it to a direction that had none, leaves a direction that had
/// one alone, and does not touch the other direction.
pub proof fn lemma_fill_keeps_what_is_set(targets: Option<RateTargets>, value: Double)
    requires
        value.usable(),
    ensures
        targeted(targets, "ab"@) ==> with_direction(targets, "ab"@, Some(value)) == targets,
        targeted(targets, "ba"@) ==> with_direction(targets, "ba"@, Some(value)) == targets,
        !targeted(targets, "ab"@) ==> with_direction(targets, "ab"@, Some(value))->0.target("ab"@)
            == Some(value),
        !targeted(targets, "ba"@) ==> with_direction(targets, "ba"@, Some(value))->0.target("ba"@)
            == Some(value),
        targeted(with_direction(targets, "ab"@, Some(value)), "ba"@) == targeted(targets, "ba"@),
        targeted(with_direction(targets, "ba"@, Some(value)), "ab"@) == targeted(targets, "ab"@),
{
    reveal_strlit("ab");
    reveal_strlit("ba");
    assert("ab"@[0] != "ba"@[0]);
}

/// The threshold for a link in one direction that no other level gives: the band table's, the pair
/// rule's, that of the older band rules, the one for all Wi-Fi links. None where the receiving
/// interface has one of its own.
pub open spec fn single_target(
    override_holds: bool,
    band: Option<Double>,
    pair: Option<Double>,
    older: Option<Double>,
    common: Option<Double>,
) -> Option<Double> {
    if override_holds {
        None
    } else {
        first_some(band, first_some(pair, first_some(older, common)))
    }
}

/// The threshold for a link in one direction that no other level gives.
pub fn pick_single(
    override_holds: bool,
    band: Option<Double>,
    pair: Option<Double>,
    older: Option<Double>,
    common: Option<Double>,
) -> (r: Option<Double>)
    ensures
        r == single_target(override_holds, band, pair, older, common),
{
    if override_holds {
        None
    } else if band.is_some() {
        band
    } else if pair.is_some() {
        pair
    } else if older.is_some() {
        older
    } else {
        common
    }
}

/// The threshold on the sum that a request gives for a Wi-Fi link.
pub open spec fn wifi_total(
    req: RunRequest,
    band: Option<TotalTarget>,
    pair: Option<TotalTarget>,
) -> Option<TotalTarget> {
    let each = match usable_only(Some(req.wifi_pair_bidir_rx_target_mbps)) {
        Some(x) => Some(TotalTarget::Twice(x)),
        None => None,
    };
    first_some(
        band,
        first_some(pair, first_some(given_total(req.wifi_pair_bidir_total_rx_target_mbps), each)),
    )
}

/// The threshold on the sum that a request gives for a Wi-Fi link.
pub fn pick_total(
    req: &RunRequest,
    band: Option<TotalTarget>,
    pair: Option<TotalTarget>,
) -> (r: Option<TotalTarget>)
    ensures
        r == wifi_total(*req, band, pair),
{
    if band.is_some() {
        return band;
    }
    if pair.is_some() {
        return pair;
    }
    let common = as_total(req.wifi_pair_bidir_total_rx_target_mbps);
    if common.is_some() {
        return common;
    }
    match positive_wifi_target(req.wifi_pair_bidir_rx_target_mbps) {
        Some(x) => Some(TotalTarget::Twice(x)),
        None => None,
    }
}

/// A test with the Wi-Fi thresholds of a request filled in where it has none of its own.
pub open spec fn with_wifi_targets(
    spec: TestSpecView,
    rd: Readings,
    req: RunRequest,
    src: Seq<char>,
    dst: Seq<char>,
) -> TestSpecView {
    match wifi_ends(rd, src, dst) {
        None => spec,
        Some((a, b)) => {
            let (a_band, b_band) = (nic_band(a.nic), nic_band(b.nic));
            let rules = req.wifi_band_thresholds@;
            let band = band_pair_targets(rules, a, b);
            let pair = pair_rule_targets(req.wifi_pair_thresholds@, src, dst);
            let common = usable_only(Some(req.wifi_pair_rx_target_mbps));
            let ab = single_target(
                override_resolves(rd, req, dst),
                band.single_ab,
                pair.single_ab,
                older_band_target(rules, a_band, b_band),
                common,
            );
            let ba = single_target(
                override_resolves(rd, req, src),
                band.single_ba,
                pair.single_ba,
                older_band_target(rules, b_band, a_band),
                common,
            );
            TestSpecView {
                rate_targets_mbps: with_direction(
                    with_direction(spec.rate_targets_mbps, "ab"@, ab),
                    "ba"@,
                    ba,
                ),
                rate_target_bidir_total_mbps: first_some(
                    spec.rate_target_bidir_total_mbps,
                    wifi_total(req, band.bidir_total, pair.bidir_total),
                ),
                ..spec
            }
        },
    }
}

/// Fills in the Wi-Fi thresholds of a request where a test has none of its own.
pub fn apply_wifi_pair_targets(
    spec: &mut TestSpec,
    rd: &Readings,
    req: &RunRequest,
    src: &str,
    dst: &str,
)
    ensures
        final(spec)@ == with_wifi_targets(old(spec)@, *rd, *req, src@, dst@),
{
    let (a, b) = match wifi_endpoints(rd, src, dst) {
        Some(ends) => ends,
        None => {
            return ;
        },
    };
    let a_band = normalized_wifi_band(&a.nic);
    let b_band = normalized_wifi_band(&b.nic);
    let rules = &req.wifi_band_thresholds;
    let band = wifi_band_pair_targets(rules, a, b);
    let pair = wifi_pair_rule_targets(&req.wifi_pair_thresholds, src, dst);
    let common = positive_wifi_target(req.wifi_pair_rx_target_mbps);
    let ab = pick_single(
        nic_rx_override_resolves(rd, req, dst),
        band.single_ab,
        pair.single_ab,
        wifi_band_target(rules, a_band, b_band),
        common,
    );
    let ba = pick_single(
        nic_rx_override_resolves(rd, req, src),
        band.single_ba,
        pair.single_ba,
        wifi_band_target(rules, b_band, a_band),
        common,
    );
    if let Some(value) = ab {
        fill_direction_target(spec, "ab", value);
    }
    if let Some(value) = ba {
        fill_direction_target(spec, "ba", value);
    }
    if spec.rate_target_bidir_total_mbps.is_none() {
        spec.rate_target_bidir_total_mbps = pick_total(req, band.bidir_total, pair.bidir_total);
    }
}

/// Wi-Fi thresholds only fill gaps: what a test is held to in a direction, or over both, stays, and
/// nothing but its thresholds changes.
pub proof fn lemma_wifi_thresholds_fill_gaps(
    spec: TestSpecView,
    rd: Readings,
    req: RunRequest,
    src: Seq<char>,
    dst: Seq<char>,
)
    ensures
        ({
            let after = with_wifi_targets(spec, rd, req, src, dst);
            &&& targeted(spec.rate_targets_mbps, "ab"@) ==> after.rate_targets_mbps is Some
                && after.rate_targets_mbps->0.target("ab"@) == spec.rate_targets_mbps->0.target(
                "ab"@,
            )
            &&& targeted(spec.rate_targets_mbps, "ba"@) ==> after.rate_targets_mbps is Some
                && after.rate_targets_mbps->0.target("ba"@) == spec.rate_targets_mbps->0.target(
                "ba"@,
            )
            &&& spec.rate_target_bidir_total_mbps is Some ==> after.rate_target_bidir_total_mbps
                == spec.rate_target_bidir_total_mbps
            &&& after == (TestSpecView {
                rate_targets_mbps: after.rate_targets_mbps,
                rate_target_bidir_total_mbps: after.rate_target_bidir_total_mbps,
                ..spec
            })
        }),
{
    reveal_strlit("ab");
    reveal_strlit("ba");
    assert("ab"@[0] != "ba"@[0]);
}

} // verus!
