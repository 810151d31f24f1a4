//! What two wireless ends are held to.
use vstd::prelude::*;
use vstd::string::*;
use crate::config::{TestSpecView, TotalTarget};
use crate::meaning::matrix::{both_wireless, is_wireless};
use crate::meaning::rate::{asks_for, holds_a_rate, lemma_threshold_of_a_direction};
use crate::meaning::thresholds::{lemma_threshold_is_read, says_mbps, says_percent};
use crate::model::{RunRequest, WifiBandThreshold, WifiPairThreshold};
use crate::number::Double;
use crate::protocol::NicInfo;
use crate::readings::{reading, Endpoint, Readings, Side};
use crate::text::{blank, has, lowered, trimmed, uppered};
use crate::validate::{rx_target, RxTarget};
use crate::wifi::{band_of, nic_band, wireless};
use crate::wifi_targets::{
    band_pair_targets, band_rule_index, older_band_target, older_rule_index, override_resolves,
    pair_rule_index, pair_rule_targets, policy_index, targeted, wifi_ends, with_wifi_targets,
};

verus! {

/// A text names the 2.4 GHz band before any other, then the one of 6 and the one of 5 GHz.
pub proof fn lemma_band_is_named_by_its_digits(raw: Seq<char>)
    ensures
        ({
            let t = lowered(raw);
            let low = has(t, "2.4"@) || has(t, "2_4"@) || has(t, "24g"@);
            &&& low ==> band_of(raw) == "wifi_2_4g"@
            &&& !low && has(t, "6"@) ==> band_of(raw) == "wifi_6g"@
            &&& !low && !(has(t, "6"@)) && has(t, "5"@) ==> band_of(raw) == "wifi_5g"@
            &&& !low && !(has(t, "6"@)) && !(has(t, "5"@)) ==> band_of(raw) == "unknown"@
        }),
{
}

/// An interface is on the band that its own word for it or its role names.
pub proof fn lemma_interface_is_on_its_band(nic: NicInfo)
    ensures
        nic_band(nic) == band_of(nic.wifi_band@ + " "@ + nic.role@),
        wireless(nic) <==> nic.is_wifi || !blank(nic.wifi_band@) || has(uppered(nic.role@), "WIFI"@),
{
}

/// The first band rule for a band of the master and a band of the agent.
pub open spec fn is_band_rule(
    rules: Seq<WifiBandThreshold>,
    master: NicInfo,
    agent: NicInfo,
    r: int,
) -> bool {
    &&& 0 <= r < rules.len()
    &&& band_of(rules[r].master_band@) == nic_band(master)
    &&& band_of(rules[r].agent_band@) == nic_band(agent)
    &&& forall|i: int|
        0 <= i < r ==> !(band_of((#[trigger] rules[i]).master_band@) == nic_band(master) && band_of(
            rules[i].agent_band@,
        ) == nic_band(agent))
}

/// The band rule for two ends of different sides.
pub open spec fn is_rule_between(
    rules: Seq<WifiBandThreshold>,
    a: Endpoint,
    b: Endpoint,
    r: int,
) -> bool {
    ||| a.side is Master && b.side is Agent && is_band_rule(rules, a.nic, b.nic, r)
    ||| a.side is Agent && b.side is Master && is_band_rule(rules, b.nic, a.nic, r)
}

/// The band rules ask for `v` from an end to another.
pub open spec fn band_asks(
    rules: Seq<WifiBandThreshold>,
    from: Endpoint,
    to: Endpoint,
    v: Double,
) -> bool {
    holds_a_rate(v) && exists|r: int| #[trigger]
        is_rule_between(rules, from, to, r) && v == if from.side is Master {
            rules[r].rx_target_master_to_agent_mbps
        } else {
            rules[r].rx_target_agent_to_master_mbps
        }
}

/// The first pair rule for two endpoints in this order.
pub open spec fn is_pair_rule(
    rules: Seq<WifiPairThreshold>,
    src: Seq<char>,
    dst: Seq<char>,
    r: int,
) -> bool {
    &&& 0 <= r < rules.len()
    &&& trimmed(rules[r].src_endpoint@) == src
    &&& trimmed(rules[r].dst_endpoint@) == dst
    &&& forall|i: int|
        0 <= i < r ==> !(trimmed((#[trigger] rules[i]).src_endpoint@) == src && trimmed(
            rules[i].dst_endpoint@,
        ) == dst)
}

/// The pair rules ask for `v` from the first of two endpoints to the second, or back.
pub open spec fn pair_asks(
    rules: Seq<WifiPairThreshold>,
    src: Seq<char>,
    dst: Seq<char>,
    forth: bool,
    v: Double,
) -> bool {
    holds_a_rate(v) && exists|r: int| #[trigger]
        is_pair_rule(rules, src, dst, r) && v == if forth {
            rules[r].rx_target_ab_mbps
        } else {
            rules[r].rx_target_ba_mbps
        }
}

/// The first older rule from a band to another.
pub open spec fn is_older_rule(
    rules: Seq<WifiBandThreshold>,
    from: NicInfo,
    to: NicInfo,
    r: int,
) -> bool {
    &&& 0 <= r < rules.len()
    &&& band_of(rules[r].src_band@) == nic_band(from)
    &&& band_of(rules[r].dst_band@) == nic_band(to)
    &&& forall|i: int|
        0 <= i < r ==> !(band_of((#[trigger] rules[i]).src_band@) == nic_band(from) && band_of(
            rules[i].dst_band@,
        ) == nic_band(to))
}

/// The older rules ask for `v` from an end to another.
pub open spec fn older_asks(
    rules: Seq<WifiBandThreshold>,
    from: Endpoint,
    to: Endpoint,
    v: Double,
) -> bool {
    holds_a_rate(v) && exists|r: int| #[trigger]
        is_older_rule(rules, from.nic, to.nic, r) && v == rules[r].rx_target_mbps
}

/// An interface has a threshold of its own: the first policy about it says a rate, or a share of a
/// speed that is known.
pub open spec fn has_its_own(rd: Readings, req: RunRequest, endpoint: Seq<char>) -> bool {
    exists|i: int|
        0 <= i < req.nic_policies@.len() && trimmed((#[trigger] req.nic_policies@[i]).endpoint@)
            == endpoint && (forall|j: int|
            0 <= j < i ==> trimmed((#[trigger] req.nic_policies@[j]).endpoint@) != endpoint) && ((
        exists|v: Double| #[trigger] says_mbps(rd, req.nic_policies@[i].rx_target@, v)) || ((exists|
            v: Double,
        | #[trigger] says_percent(rd, req.nic_policies@[i].rx_target@, v)) && reading(
            rd.endpoints@,
            endpoint,
        ) is Ok && reading(rd.endpoints@, endpoint)->Ok_0.nic.speed_mbps > 0))
}

proof fn lemma_policy_index(
    policies: Seq<crate::model::NicPolicySelection>,
    endpoint: Seq<char>,
    i: int,
)
    requires
        0 <= i <= policies.len(),
    ensures
        ({
            let at = policy_index(policies, endpoint, i);
            &&& i <= at <= policies.len()
            &&& forall|j: int| i <= j < at ==> trimmed((#[trigger] policies[j]).endpoint@) != endpoint
            &&& at < policies.len() ==> trimmed(policies[at].endpoint@) == endpoint
        }),
    decreases policies.len() - i,
{
    if i < policies.len() && trimmed(policies[i].endpoint@) != endpoint {
        lemma_policy_index(policies, endpoint, i + 1);
    }
}

proof fn lemma_says(rd: Readings, raw: Seq<char>)
    ensures
        (exists|v: Double| #[trigger] says_mbps(rd, raw, v)) <==> (rx_target(rd, raw) matches Ok(
            Some(RxTarget::Mbps(_)),
        )),
        (exists|v: Double| #[trigger] says_percent(rd, raw, v)) <==> (rx_target(rd, raw) matches Ok(
            Some(RxTarget::Percent(_)),
        )),
{
    if let Ok(Some(RxTarget::Mbps(v))) = rx_target(rd, raw) {
        lemma_threshold_is_read(rd, raw, v);
    }
    if let Ok(Some(RxTarget::Percent(v))) = rx_target(rd, raw) {
        lemma_threshold_is_read(rd, raw, v);
    }
    if exists|v: Double| #[trigger] says_mbps(rd, raw, v) {
        let v = choose|v: Double| #[trigger] says_mbps(rd, raw, v);
        lemma_threshold_is_read(rd, raw, v);
    }
    if exists|v: Double| #[trigger] says_percent(rd, raw, v) {
        let v = choose|v: Double| #[trigger] says_percent(rd, raw, v);
        lemma_threshold_is_read(rd, raw, v);
    }
}

/// A policy overrides the thresholds of wireless links where it gives its interface one of its own.
pub proof fn lemma_policy_overrides_with_its_own(
    rd: Readings,
    req: RunRequest,
    endpoint: Seq<char>,
)
    ensures
        override_resolves(rd, req, endpoint) <==> has_its_own(rd, req, endpoint),
{
    let policies = req.nic_policies@;
    lemma_policy_index(policies, endpoint, 0);
    let at = policy_index(policies, endpoint, 0);
    if at < policies.len() {
        lemma_says(rd, policies[at].rx_target@);
    }
    if has_its_own(rd, req, endpoint) {
        let i = choose|i: int|
            0 <= i < req.nic_policies@.len() && trimmed((#[trigger] req.nic_policies@[i]).endpoint@)
                == endpoint && (forall|j: int|
                0 <= j < i ==> trimmed((#[trigger] req.nic_policies@[j]).endpoint@) != endpoint)
                && ((exists|v: Double| #[trigger]
                says_mbps(rd, req.nic_policies@[i].rx_target@, v)) || ((exists|v: Double| #[trigger]
                says_percent(rd, req.nic_policies@[i].rx_target@, v)) && reading(
                rd.endpoints@,
                endpoint,
            ) is Ok && reading(rd.endpoints@, endpoint)->Ok_0.nic.speed_mbps > 0));
        if at < i {
            assert(trimmed(policies[at].endpoint@) != endpoint);
        }
        if i < at {
            assert(trimmed(policies[i].endpoint@) != endpoint);
        }
    }
}

proof fn lemma_band_index(
    rules: Seq<WifiBandThreshold>,
    master: NicInfo,
    agent: NicInfo,
    i: int,
)
    requires
        0 <= i <= rules.len(),
        forall|j: int|
            0 <= j < i ==> !(band_of((#[trigger] rules[j]).master_band@) == nic_band(master)
                && band_of(rules[j].agent_band@) == nic_band(agent)),
    ensures
        ({
            let at = band_rule_index(rules, nic_band(master), nic_band(agent), i);
            &&& 0 <= at <= rules.len()
            &&& at < rules.len() ==> is_band_rule(rules, master, agent, at)
            &&& forall|r: int| #[trigger] is_band_rule(rules, master, agent, r) ==> r == at
        }),
    decreases rules.len() - i,
{
    if i < rules.len() && !(band_of(rules[i].master_band@) == nic_band(master) && band_of(
        rules[i].agent_band@,
    ) == nic_band(agent)) {
        lemma_band_index(rules, master, agent, i + 1);
    }
}

proof fn lemma_older_index(rules: Seq<WifiBandThreshold>, from: NicInfo, to: NicInfo, i: int)
    requires
        0 <= i <= rules.len(),
        forall|j: int|
            0 <= j < i ==> !(band_of((#[trigger] rules[j]).src_band@) == nic_band(from) && band_of(
                rules[j].dst_band@,
            ) == nic_band(to)),
    ensures
        ({
            let at = older_rule_index(rules, nic_band(from), nic_band(to), i);
            &&& 0 <= at <= rules.len()
            &&& at < rules.len() ==> is_older_rule(rules, from, to, at)
            &&& forall|r: int| #[trigger] is_older_rule(rules, from, to, r) ==> r == at
        }),
    decreases rules.len() - i,
{
    if i < rules.len() && !(band_of(rules[i].src_band@) == nic_band(from) && band_of(
        rules[i].dst_band@,
    ) == nic_band(to)) {
        lemma_older_index(rules, from, to, i + 1);
    }
}

proof fn lemma_pair_index(rules: Seq<WifiPairThreshold>, src: Seq<char>, dst: Seq<char>, i: int)
    requires
        0 <= i <= rules.len(),
        forall|j: int|
            0 <= j < i ==> !(trimmed((#[trigger] rules[j]).src_endpoint@) == src && trimmed(
                rules[j].dst_endpoint@,
            ) == dst),
    ensures
        ({
            let at = pair_rule_index(rules, src, dst, i);
            &&& 0 <= at <= rules.len()
            &&& at < rules.len() ==> is_pair_rule(rules, src, dst, at)
            &&& forall|r: int| #[trigger] is_pair_rule(rules, src, dst, r) ==> r == at
        }),
    decreases rules.len() - i,
{
    if i < rules.len() && !(trimmed(rules[i].src_endpoint@) == src && trimmed(
        rules[i].dst_endpoint@,
    ) == dst) {
        lemma_pair_index(rules, src, dst, i + 1);
    }
}

/// What the rules of each kind ask for is what is looked up in them.
proof fn lemma_rules_are_looked_up(
    req: RunRequest,
    src: Seq<char>,
    dst: Seq<char>,
    a: Endpoint,
    b: Endpoint,
    v: Double,
)
    ensures
        ({
            let rules = req.wifi_band_thresholds@;
            let pairs = req.wifi_pair_thresholds@;
            let band = band_pair_targets(rules, a, b);
            let pair = pair_rule_targets(pairs, src, dst);
            &&& band.single_ab == Some(v) <==> band_asks(rules, a, b, v)
            &&& band.single_ba == Some(v) <==> band_asks(rules, b, a, v)
            &&& pair.single_ab == Some(v) <==> pair_asks(pairs, src, dst, true, v)
            &&& pair.single_ba == Some(v) <==> pair_asks(pairs, src, dst, false, v)
            &&& older_band_target(rules, nic_band(a.nic), nic_band(b.nic)) == Some(v)
                <==> older_asks(rules, a, b, v)
            &&& older_band_target(rules, nic_band(b.nic), nic_band(a.nic)) == Some(v)
                <==> older_asks(rules, b, a, v)
        }),
{
    let rules = req.wifi_band_thresholds@;
    let pairs = req.wifi_pair_thresholds@;
    lemma_band_index(rules, a.nic, b.nic, 0);
    lemma_band_index(rules, b.nic, a.nic, 0);
    lemma_older_index(rules, a.nic, b.nic, 0);
    lemma_older_index(rules, b.nic, a.nic, 0);
    lemma_pair_index(pairs, src, dst, 0);
    let band = band_pair_targets(rules, a, b);
    let from_master = a.side == Side::Master;
    let (master, agent) = if from_master {
        (a, b)
    } else {
        (b, a)
    };
    let r = band_rule_index(rules, nic_band(master.nic), nic_band(agent.nic), 0);
    if a.side != b.side && r < rules.len() {
        assert(is_rule_between(rules, a, b, r));
        assert(is_rule_between(rules, b, a, r));
        assert(forall|x: int| #[trigger] is_rule_between(rules, a, b, x) ==> x == r);
        assert(forall|x: int| #[trigger] is_rule_between(rules, b, a, x) ==> x == r);
    } else {
        assert(forall|x: int| !(#[trigger] is_rule_between(rules, a, b, x)));
        assert(forall|x: int| !(#[trigger] is_rule_between(rules, b, a, x)));
    }
    let p = pair_rule_index(pairs, src, dst, 0);
    if p < pairs.len() {
        assert(is_pair_rule(pairs, src, dst, p));
    }
    let (o, q) = (
        older_rule_index(rules, nic_band(a.nic), nic_band(b.nic), 0),
        older_rule_index(rules, nic_band(b.nic), nic_band(a.nic), 0),
    );
    if o < rules.len() {
        assert(is_older_rule(rules, a.nic, b.nic, o));
    }
    if q < rules.len() {
        assert(is_older_rule(rules, b.nic, a.nic, q));
    }
}

/// The first that asks, in the order of the kinds, asks for `v`: the band rules, the pair rules, the
/// older rules, the threshold for all wireless links.
pub open spec fn first_asks(
    req: RunRequest,
    src: Seq<char>,
    dst: Seq<char>,
    from: Endpoint,
    to: Endpoint,
    forth: bool,
    v: Double,
) -> bool {
    let rules = req.wifi_band_thresholds@;
    let pairs = req.wifi_pair_thresholds@;
    let no_band = forall|x: Double| !(#[trigger] band_asks(rules, from, to, x));
    let no_pair = forall|x: Double| !(#[trigger] pair_asks(pairs, src, dst, forth, x));
    let no_older = forall|x: Double| !(#[trigger] older_asks(rules, from, to, x));
    ||| band_asks(rules, from, to, v)
    ||| no_band && pair_asks(pairs, src, dst, forth, v)
    ||| no_band && no_pair && older_asks(rules, from, to, v)
    ||| no_band && no_pair && no_older && v == req.wifi_pair_rx_target_mbps && holds_a_rate(v)
}

/// A test asks for `v` in a direction.
pub open spec fn test_asks(t: TestSpecView, dir: Seq<char>, v: Double) -> bool {
    t.rate_targets_mbps is Some && asks_for(t.rate_targets_mbps->0, dir, v)
}

/// Between two wireless ends a direction that a test asks nothing for is held to what the first kind
/// of rule asks for which asks at all, unless the receiving interface has a threshold of its own. What
/// a test asks for itself stays.
pub proof fn lemma_wireless_directions_are_filled(
    t: TestSpecView,
    rd: Readings,
    req: RunRequest,
    src: Seq<char>,
    dst: Seq<char>,
    a: Endpoint,
    b: Endpoint,
    v: Double,
)
    requires
        reading(rd.endpoints@, src) == Ok::<Endpoint, Seq<char>>(a),
        reading(rd.endpoints@, dst) == Ok::<Endpoint, Seq<char>>(b),
        is_wireless(a),
        is_wireless(b),
    ensures
        ({
            let after = with_wifi_targets(t, rd, req, src, dst);
            let asked_ab = exists|x: Double| #[trigger] test_asks(t, "ab"@, x);
            let asked_ba = exists|x: Double| #[trigger] test_asks(t, "ba"@, x);
            &&& asked_ab ==> (test_asks(after, "ab"@, v) <==> test_asks(t, "ab"@, v))
            &&& !asked_ab ==> (test_asks(after, "ab"@, v) <==> !has_its_own(rd, req, dst)
                && first_asks(req, src, dst, a, b, true, v))
            &&& asked_ba ==> (test_asks(after, "ba"@, v) <==> test_asks(t, "ba"@, v))
            &&& !asked_ba ==> (test_asks(after, "ba"@, v) <==> !has_its_own(rd, req, src)
                && first_asks(req, src, dst, b, a, false, v))
        }),
{
    reveal_strlit("ab");
    reveal_strlit("ba");
    assert("ab"@[0] != "ba"@[0]);
    let after = with_wifi_targets(t, rd, req, src, dst);
    assert(wifi_ends(rd, src, dst) == Some((a, b)));
    assert forall|x: Double| test_asks(t, "ab"@, x) <==> t.rate_targets_mbps is Some
        && t.rate_targets_mbps->0.target("ab"@) == Some(x) by {
        if t.rate_targets_mbps is Some {
            lemma_threshold_of_a_direction(t.rate_targets_mbps->0, "ab"@, x);
        }
    }
    assert forall|x: Double| test_asks(t, "ba"@, x) <==> t.rate_targets_mbps is Some
        && t.rate_targets_mbps->0.target("ba"@) == Some(x) by {
        if t.rate_targets_mbps is Some {
            lemma_threshold_of_a_direction(t.rate_targets_mbps->0, "ba"@, x);
        }
    }
    if targeted(t.rate_targets_mbps, "ab"@) {
        assert(test_asks(t, "ab"@, t.rate_targets_mbps->0.target("ab"@)->0));
    }
    if targeted(t.rate_targets_mbps, "ba"@) {
        assert(test_asks(t, "ba"@, t.rate_targets_mbps->0.target("ba"@)->0));
    }
    if after.rate_targets_mbps is Some {
        lemma_threshold_of_a_direction(after.rate_targets_mbps->0, "ab"@, v);
        lemma_threshold_of_a_direction(after.rate_targets_mbps->0, "ba"@, v);
    }
    lemma_policy_overrides_with_its_own(rd, req, src);
    lemma_policy_overrides_with_its_own(rd, req, dst);
    let rules = req.wifi_band_thresholds@;
    let pairs = req.wifi_pair_thresholds@;
    let band = band_pair_targets(rules, a, b);
    let pair = pair_rule_targets(pairs, src, dst);
    let older_ab = older_band_target(rules, nic_band(a.nic), nic_band(b.nic));
    let older_ba = older_band_target(rules, nic_band(b.nic), nic_band(a.nic));
    assert forall|x: Double| #[trigger]
        band_asks(rules, a, b, x) <==> band.single_ab == Some(x) by {
        lemma_rules_are_looked_up(req, src, dst, a, b, x);
    }
    assert forall|x: Double| #[trigger]
        band_asks(rules, b, a, x) <==> band.single_ba == Some(x) by {
        lemma_rules_are_looked_up(req, src, dst, a, b, x);
    }
    assert forall|x: Double| #[trigger]
        pair_asks(pairs, src, dst, true, x) <==> pair.single_ab == Some(x) by {
        lemma_rules_are_looked_up(req, src, dst, a, b, x);
    }
    assert forall|x: Double| #[trigger]
        pair_asks(pairs, src, dst, false, x) <==> pair.single_ba == Some(x) by {
        lemma_rules_are_looked_up(req, src, dst, a, b, x);
    }
    assert forall|x: Double| #[trigger] older_asks(rules, a, b, x) <==> older_ab == Some(x) by {
        lemma_rules_are_looked_up(req, src, dst, a, b, x);
    }
    assert forall|x: Double| #[trigger] older_asks(rules, b, a, x) <==> older_ba == Some(x) by {
        lemma_rules_are_looked_up(req, src, dst, a, b, x);
    }
    if let Some(x) = band.single_ab {
        assert(band_asks(rules, a, b, x));
    }
    if let Some(x) = band.single_ba {
        assert(band_asks(rules, b, a, x));
    }
    if let Some(x) = pair.single_ab {
        assert(pair_asks(pairs, src, dst, true, x));
    }
    if let Some(x) = pair.single_ba {
        assert(pair_asks(pairs, src, dst, false, x));
    }
    if let Some(x) = older_ab {
        assert(older_asks(rules, a, b, x));
    }
    if let Some(x) = older_ba {
        assert(older_asks(rules, b, a, x));
    }
}

/// A rule between two ends sets a total: the one it gives or, without, both of its directions.
pub open spec fn band_totals(
    rules: Seq<WifiBandThreshold>,
    a: Endpoint,
    b: Endpoint,
    total: TotalTarget,
) -> bool {
    exists|r: int| #[trigger]
        is_rule_between(rules, a, b, r) && if holds_a_rate(rules[r].bidir_total_rx_target_mbps) {
            total == TotalTarget::Total(rules[r].bidir_total_rx_target_mbps)
        } else {
            &&& holds_a_rate(rules[r].bidir_rx_target_master_to_agent_mbps)
            &&& holds_a_rate(rules[r].bidir_rx_target_agent_to_master_mbps)
            &&& total == TotalTarget::Sum(
                rules[r].bidir_rx_target_master_to_agent_mbps,
                rules[r].bidir_rx_target_agent_to_master_mbps,
            )
        }
}

/// A pair rule sets a total by both of its directions.
pub open spec fn pair_totals(
    rules: Seq<WifiPairThreshold>,
    src: Seq<char>,
    dst: Seq<char>,
    total: TotalTarget,
) -> bool {
    exists|r: int| #[trigger]
        is_pair_rule(rules, src, dst, r) && holds_a_rate(rules[r].bidir_rx_target_ab_mbps)
            && holds_a_rate(rules[r].bidir_rx_target_ba_mbps) && total == TotalTarget::Sum(
            rules[r].bidir_rx_target_ab_mbps,
            rules[r].bidir_rx_target_ba_mbps,
        )
}

/// Between two wireless ends a test without a total is held to the first that is set: by the band
/// rules, the pair rules, the total for all wireless links, twice the rate for each direction.
pub proof fn lemma_wireless_totals_are_filled(
    t: TestSpecView,
    rd: Readings,
    req: RunRequest,
    src: Seq<char>,
    dst: Seq<char>,
    a: Endpoint,
    b: Endpoint,
    total: TotalTarget,
)
    requires
        reading(rd.endpoints@, src) == Ok::<Endpoint, Seq<char>>(a),
        reading(rd.endpoints@, dst) == Ok::<Endpoint, Seq<char>>(b),
        is_wireless(a),
        is_wireless(b),
    ensures
        ({
            let after = with_wifi_targets(t, rd, req, src, dst).rate_target_bidir_total_mbps;
            let rules = req.wifi_band_thresholds@;
            let pairs = req.wifi_pair_thresholds@;
            let no_band = forall|x: TotalTarget| !(#[trigger] band_totals(rules, a, b, x));
            let no_pair = forall|x: TotalTarget| !(#[trigger] pair_totals(pairs, src, dst, x));
            let (sum, each) = (
                req.wifi_pair_bidir_total_rx_target_mbps,
                req.wifi_pair_bidir_rx_target_mbps,
            );
            &&& t.rate_target_bidir_total_mbps is Some ==> after == t.rate_target_bidir_total_mbps
            &&& t.rate_target_bidir_total_mbps is None ==> {
                &&& band_totals(rules, a, b, total) ==> after == Some(total)
                &&& no_band && pair_totals(pairs, src, dst, total) ==> after == Some(total)
                &&& no_band && no_pair && holds_a_rate(sum) ==> after == Some(
                    TotalTarget::Total(sum),
                )
                &&& no_band && no_pair && !holds_a_rate(sum) && holds_a_rate(each) ==> after == Some(
                    TotalTarget::Twice(each),
                )
                &&& no_band && no_pair && !holds_a_rate(sum) && !holds_a_rate(each) ==> after
                    is None
            }
        }),
{
    assert(wifi_ends(rd, src, dst) == Some((a, b)));
    let rules = req.wifi_band_thresholds@;
    let pairs = req.wifi_pair_thresholds@;
    lemma_band_index(rules, a.nic, b.nic, 0);
    lemma_band_index(rules, b.nic, a.nic, 0);
    lemma_pair_index(pairs, src, dst, 0);
    let from_master = a.side == Side::Master;
    let (master, agent) = if from_master {
        (a, b)
    } else {
        (b, a)
    };
    let r = band_rule_index(rules, nic_band(master.nic), nic_band(agent.nic), 0);
    let band = band_pair_targets(rules, a, b);
    let pair = pair_rule_targets(pairs, src, dst);
    if a.side != b.side && r < rules.len() {
        assert(is_rule_between(rules, a, b, r));
        assert(forall|x: int| #[trigger] is_rule_between(rules, a, b, x) ==> x == r);
        if let Some(x) = band.bidir_total {
            assert(band_totals(rules, a, b, x));
        }
    } else {
        assert(forall|x: int| !(#[trigger] is_rule_between(rules, a, b, x)));
    }
    let p = pair_rule_index(pairs, src, dst, 0);
    if p < pairs.len() {
        assert(is_pair_rule(pairs, src, dst, p));
        if let Some(x) = pair.bidir_total {
            assert(pair_totals(pairs, src, dst, x));
        }
    }
}

/// Where an end is not wireless, or cannot be read, nothing is filled in.
pub proof fn lemma_wired_ends_are_left_alone(
    t: TestSpecView,
    rd: Readings,
    req: RunRequest,
    src: Seq<char>,
    dst: Seq<char>,
)
    requires
        !both_wireless(rd, src, dst),
    ensures
        with_wifi_targets(t, rd, req, src, dst) == t,
{
}

} // verus!
