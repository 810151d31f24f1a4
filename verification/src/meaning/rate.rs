//! What a threshold, a ceiling and a policy of a link come down to.
use vstd::prelude::*;
use vstd::string::*;
use vstd::utf8::*;
use crate::config::{
    DirectionalBandwidthView, LinkProfiles, NicProfile, RateCheckCfg, RateMode, RateTargets,
    RoleProfile,
};
use crate::number::{double_of, Double, INFINITY_BITS};
use crate::protocol::NicInfo;
use crate::rate::{
    final_mode, link_bandwidth, link_target, nic_ceiling, one_at_least, path_ceiling, profile_index,
    role_bandwidth, role_target, target_of,
};
use crate::text::{alike, blank, cut_at, lower_char, lowered, trimmed, upper_char, uppered};

verus! {

/// Texts that differ only in the case of ASCII letters are the same in capitals.
pub proof fn lemma_alike_in_capitals(a: Seq<char>, b: Seq<char>)
    ensures
        alike(a, b) <==> uppered(a) == uppered(b),
{
    if alike(a, b) {
        assert(lowered(a).len() == lowered(b).len());
        assert forall|i: int| 0 <= i < a.len() implies upper_char(a[i]) == upper_char(b[i]) by {
            assert(lowered(a)[i] == lowered(b)[i]);
        }
        assert(uppered(a) =~= uppered(b));
    }
    if uppered(a) == uppered(b) {
        assert(uppered(a).len() == uppered(b).len());
        assert forall|i: int| 0 <= i < a.len() implies lower_char(a[i]) == lower_char(b[i]) by {
            assert(uppered(a)[i] == uppered(b)[i]);
        }
        assert(lowered(a) =~= lowered(b));
    }
}

/// A rate can be held to `v`: a number between zero and infinity.
pub open spec fn holds_a_rate(v: Double) -> bool {
    0 < v.bits < INFINITY_BITS
}

/// The field that speaks for a direction.
pub open spec fn field_for(targets: RateTargets, dir: Seq<char>) -> Option<Double> {
    if dir == "ab"@ && targets.ab is Some {
        targets.ab
    } else if dir == "ab"@ {
        targets.forward
    } else if dir == "ba"@ {
        targets.ba
    } else {
        None
    }
}

/// The thresholds ask for `v` in a direction.
pub open spec fn asks_for(targets: RateTargets, dir: Seq<char>, v: Double) -> bool {
    field_for(targets, dir) == Some(v) && holds_a_rate(v)
}

/// The thresholds ask for nothing in a direction.
pub open spec fn silent(targets: RateTargets, dir: Seq<char>) -> bool {
    forall|v: Double| !(#[trigger] asks_for(targets, dir, v))
}

/// Thresholds of the forward direction come from `ab`, else from `forward`; those of the way back
/// from `ba` alone. What no rate can be held to counts as missing.
pub proof fn lemma_threshold_of_a_direction(targets: RateTargets, dir: Seq<char>, v: Double)
    ensures
        targets.target(dir) == Some(v) <==> asks_for(targets, dir, v),
        targets.target(dir) is None <==> silent(targets, dir),
{
    reveal_strlit("ab");
    reveal_strlit("ba");
    match targets.target(dir) {
        Some(x) => {
            assert(asks_for(targets, dir, x));
        },
        None => {},
    }
}

/// In the modes that check a rate, what a test asks for itself is its threshold, whatever the
/// common thresholds and the ends are.
pub proof fn lemma_a_test_decides_its_own_threshold(
    mode: RateMode,
    targets: RateTargets,
    dir: Seq<char>,
    src: NicInfo,
    dst: NicInfo,
    cfg: RateCheckCfg,
    v: Double,
)
    requires
        mode is Verify || mode is Auto,
        asks_for(targets, dir, v),
    ensures
        target_of(mode, targets, dir, src, dst, cfg) == Some(v),
{
    lemma_threshold_of_a_direction(targets, dir, v);
}

/// A test that asks for nothing is held to the common threshold, whatever its ends are.
pub proof fn lemma_common_threshold_fills_in(
    mode: RateMode,
    targets: RateTargets,
    dir: Seq<char>,
    src: NicInfo,
    dst: NicInfo,
    cfg: RateCheckCfg,
    v: Double,
)
    requires
        mode is Verify || mode is Auto,
        silent(targets, dir),
        asks_for(cfg.targets_mbps, dir, v),
    ensures
        target_of(mode, targets, dir, src, dst, cfg) == Some(v),
{
    lemma_threshold_of_a_direction(targets, dir, v);
    lemma_threshold_of_a_direction(cfg.targets_mbps, dir, v);
}

/// Where neither asks, only a path between the two fast ends of a board is held to a threshold,
/// that of the way the load goes.
pub proof fn lemma_board_threshold_comes_last(
    mode: RateMode,
    targets: RateTargets,
    dir: Seq<char>,
    src: NicInfo,
    dst: NicInfo,
    cfg: RateCheckCfg,
)
    requires
        mode is Verify || mode is Auto,
        silent(targets, dir),
        silent(cfg.targets_mbps, dir),
    ensures
        alike(src.role@, "10GUSB"@) && alike(dst.role@, "10GETH"@) && holds_a_rate(
            cfg.evb_usb_to_eth_target_mbps,
        ) ==> target_of(mode, targets, dir, src, dst, cfg) == Some(cfg.evb_usb_to_eth_target_mbps),
        alike(src.role@, "10GETH"@) && alike(dst.role@, "10GUSB"@) && holds_a_rate(
            cfg.evb_eth_to_usb_target_mbps,
        ) ==> target_of(mode, targets, dir, src, dst, cfg) == Some(cfg.evb_eth_to_usb_target_mbps),
        target_of(mode, targets, dir, src, dst, cfg) is Some ==> (alike(src.role@, "10GUSB"@)
            && alike(dst.role@, "10GETH"@)) || (alike(src.role@, "10GETH"@) && alike(
            dst.role@,
            "10GUSB"@,
        )),
{
    let v = Double { bits: 0 };
    lemma_threshold_of_a_direction(targets, dir, v);
    lemma_threshold_of_a_direction(cfg.targets_mbps, dir, v);
    reveal_strlit("10GUSB");
    reveal_strlit("10GETH");
    assert(uppered("10GUSB"@) =~= "10GUSB"@);
    assert(uppered("10GETH"@) =~= "10GETH"@);
    assert("10GUSB"@[3] != "10GETH"@[3]);
    lemma_alike_in_capitals(src.role@, "10GUSB"@);
    lemma_alike_in_capitals(src.role@, "10GETH"@);
    lemma_alike_in_capitals(dst.role@, "10GUSB"@);
    lemma_alike_in_capitals(dst.role@, "10GETH"@);
}

/// A threshold is never given to a test that only looks on or searches for its rate.
pub proof fn lemma_onlookers_have_no_threshold(
    mode: RateMode,
    targets: RateTargets,
    dir: Seq<char>,
    src: NicInfo,
    dst: NicInfo,
    cfg: RateCheckCfg,
)
    requires
        mode is Observe || mode is Discover,
    ensures
        target_of(mode, targets, dir, src, dst, cfg) is None,
{
}

/// A threshold that is given can always be compared with a rate.
pub proof fn lemma_every_threshold_holds_a_rate(
    mode: RateMode,
    targets: RateTargets,
    dir: Seq<char>,
    src: NicInfo,
    dst: NicInfo,
    cfg: RateCheckCfg,
)
    ensures
        target_of(mode, targets, dir, src, dst, cfg) matches Some(v) ==> holds_a_rate(v),
{
}

/// Left to itself, a test checks its rate exactly when it has a threshold; a mode that was chosen
/// stays.
pub proof fn lemma_mode_follows_the_threshold(mode: RateMode, target: Option<Double>)
    ensures
        mode is Auto ==> (final_mode(mode, target) is Verify <==> target is Some),
        mode is Auto ==> (final_mode(mode, target) is Observe <==> target is None),
        !(mode is Auto) ==> final_mode(mode, target) == mode,
{
}

/// The ceiling of an end is the one its role stands for, and at least one.
pub proof fn lemma_role_sets_the_ceiling(nic: NicInfo, cfg: RateCheckCfg)
    requires
        is_ascii_chars(nic.role@),
    ensures
        alike(nic.role@, "SGMII1G"@) ==> nic_ceiling(nic, cfg) == Some(
            Double { bits: 0x408F_4000_0000_0000 },
        ),
        alike(nic.role@, "10GUSB"@) || alike(nic.role@, "10GETH"@) ==> nic_ceiling(nic, cfg)
            == Some(Double { bits: 0x40C3_8800_0000_0000 }),
        alike(nic.role@, "SGMII2.5G"@) || alike(nic.role@, "RNDIS"@) ==> nic_ceiling(nic, cfg)
            == Some(one_at_least(cfg.cpe_path_ceiling_mbps)),
        alike(nic.role@, "WIFI"@) || alike(nic.role@, "WIFI2.4G"@) || alike(nic.role@, "WIFI5G"@)
            || alike(nic.role@, "WIFI6G"@) ==> nic_ceiling(nic, cfg) == Some(
            one_at_least(cfg.wifi_payload_ceiling_mbps),
        ),
        ({
            let named = alike(nic.role@, "SGMII1G"@) || alike(nic.role@, "SGMII2.5G"@) || alike(
                nic.role@,
                "RNDIS"@,
            ) || alike(nic.role@, "WIFI"@) || alike(nic.role@, "WIFI2.4G"@) || alike(
                nic.role@,
                "WIFI5G"@,
            ) || alike(nic.role@, "WIFI6G"@) || alike(nic.role@, "10GUSB"@) || alike(
                nic.role@,
                "10GETH"@,
            );
            &&& !named && nic.speed_mbps == 0 ==> nic_ceiling(nic, cfg) is None
            &&& !named && nic.speed_mbps > 0 ==> nic_ceiling(nic, cfg) == Some(
                one_at_least(Double { bits: double_of(nic.speed_mbps as nat) as u64 }),
            )
        }),
{
    reveal_strlit("SGMII1G");
    reveal_strlit("SGMII2.5G");
    reveal_strlit("RNDIS");
    reveal_strlit("WIFI");
    reveal_strlit("WIFI2.4G");
    reveal_strlit("WIFI5G");
    reveal_strlit("WIFI6G");
    reveal_strlit("10GUSB");
    reveal_strlit("10GETH");
    assert(uppered("SGMII1G"@) =~= "SGMII1G"@);
    assert(uppered("SGMII2.5G"@) =~= "SGMII2.5G"@);
    assert(uppered("RNDIS"@) =~= "RNDIS"@);
    assert(uppered("WIFI"@) =~= "WIFI"@);
    assert(uppered("WIFI2.4G"@) =~= "WIFI2.4G"@);
    assert(uppered("WIFI5G"@) =~= "WIFI5G"@);
    assert(uppered("WIFI6G"@) =~= "WIFI6G"@);
    assert(uppered("10GUSB"@) =~= "10GUSB"@);
    assert(uppered("10GETH"@) =~= "10GETH"@);
    lemma_alike_in_capitals(nic.role@, "SGMII1G"@);
    lemma_alike_in_capitals(nic.role@, "SGMII2.5G"@);
    lemma_alike_in_capitals(nic.role@, "RNDIS"@);
    lemma_alike_in_capitals(nic.role@, "WIFI"@);
    lemma_alike_in_capitals(nic.role@, "WIFI2.4G"@);
    lemma_alike_in_capitals(nic.role@, "WIFI5G"@);
    lemma_alike_in_capitals(nic.role@, "WIFI6G"@);
    lemma_alike_in_capitals(nic.role@, "10GUSB"@);
    lemma_alike_in_capitals(nic.role@, "10GETH"@);
    assert("WIFI5G"@[4] != "WIFI6G"@[4]);
    assert("10GUSB"@[3] != "10GETH"@[3]);
    assert("WIFI5G"@[0] != "10GETH"@[0]);
    assert("WIFI6G"@[0] != "10GETH"@[0]);
    assert("WIFI5G"@[0] != "10GUSB"@[0]);
    assert("WIFI6G"@[0] != "10GUSB"@[0]);
}

/// A ceiling below one is raised to one; any other number stays.
pub proof fn lemma_ceiling_is_at_least_one(v: Double)
    ensures
        one_at_least(v).bits >= 0x3FF0_0000_0000_0000,
        0x3FF0_0000_0000_0000 <= v.bits < INFINITY_BITS ==> one_at_least(v) == v,
        v.bits <= 0x3FF0_0000_0000_0000 ==> one_at_least(v).bits == 0x3FF0_0000_0000_0000,
{
}

/// A path carries what its weaker end carries, and an end without a ceiling sets none.
pub proof fn lemma_path_carries_what_its_weaker_end_carries(
    src: NicInfo,
    dst: NicInfo,
    cfg: RateCheckCfg,
)
    ensures
        path_ceiling(src, dst, cfg) is None <==> nic_ceiling(src, cfg) is None && nic_ceiling(
            dst,
            cfg,
        ) is None,
        path_ceiling(src, dst, cfg) matches Some(v) ==> {
            &&& nic_ceiling(src, cfg) matches Some(a) ==> v.bits <= a.bits
            &&& nic_ceiling(dst, cfg) matches Some(b) ==> v.bits <= b.bits
            &&& nic_ceiling(src, cfg) == Some(v) || nic_ceiling(dst, cfg) == Some(v)
        },
        path_ceiling(src, dst, cfg) == path_ceiling(dst, src, cfg),
{
}

/// The entry speaks of an interface of a host: the host under any spelling, the name letter for
/// letter, and the address where the entry gives one.
pub open spec fn speaks_of(entry: NicProfile, host: Seq<char>, nic: NicInfo) -> bool {
    &&& alike(entry.host@, host)
    &&& entry.name@ == nic.name@
    &&& entry.ipv4@.len() > 0 ==> entry.ipv4@ == nic.ipv4@
}

/// The first entry that speaks of an interface stands at `at`.
pub open spec fn first_about(
    entries: Seq<NicProfile>,
    host: Seq<char>,
    nic: NicInfo,
    at: int,
) -> bool {
    &&& 0 <= at < entries.len()
    &&& speaks_of(entries[at], host, nic)
    &&& forall|i: int| 0 <= i < at ==> !speaks_of(#[trigger] entries[i], host, nic)
}

pub(crate) proof fn lemma_first_entry(entries: Seq<NicProfile>, host: Seq<char>, nic: NicInfo, i: int)
    requires
        0 <= i <= entries.len(),
    ensures
        ({
            let at = profile_index(entries, host, nic, i);
            &&& i <= at <= entries.len()
            &&& forall|j: int| i <= j < at ==> !speaks_of(#[trigger] entries[j], host, nic)
            &&& at < entries.len() ==> speaks_of(entries[at], host, nic)
        }),
    decreases entries.len() - i,
{
    if i < entries.len() && !speaks_of(entries[i], host, nic) {
        lemma_first_entry(entries, host, nic, i + 1);
    }
}

pub(crate) proof fn lemma_first_entry_is_found(
    entries: Seq<NicProfile>,
    host: Seq<char>,
    nic: NicInfo,
    at: int,
)
    requires
        first_about(entries, host, nic, at),
    ensures
        profile_index(entries, host, nic, 0) == at,
{
    lemma_first_entry(entries, host, nic, 0);
    let found = profile_index(entries, host, nic, 0);
    if found < at {
        assert(!speaks_of(entries[found], host, nic));
    }
    if at < found {
        assert(!speaks_of(entries[at], host, nic));
    }
}

/// The receiving end sets the threshold of a link: where the first entry about it gives a number,
/// that number is the threshold or, where no rate can be held to it, there is none.
pub proof fn lemma_receiver_sets_the_threshold(
    profiles: LinkProfiles,
    src: NicInfo,
    dst_host: Seq<char>,
    dst: NicInfo,
    at: int,
    v: Double,
)
    requires
        first_about(profiles.by_nic@, dst_host, dst, at),
        profiles.by_nic@[at].rx_target_mbps == Some(v),
    ensures
        holds_a_rate(v) ==> link_target(profiles, src, dst_host, dst) == Some(v),
        !holds_a_rate(v) ==> link_target(profiles, src, dst_host, dst) is None,
{
    lemma_first_entry_is_found(profiles.by_nic@, dst_host, dst, at);
}

/// The sending end sets the bandwidth of a link: where the first entry about it gives a text that
/// is not blank, that text is the bandwidth.
pub proof fn lemma_sender_sets_the_bandwidth(
    profiles: LinkProfiles,
    src_host: Seq<char>,
    src: NicInfo,
    dst: NicInfo,
    at: int,
    text: String,
)
    requires
        first_about(profiles.by_nic@, src_host, src, at),
        profiles.by_nic@[at].udp_bandwidth == Some(text),
    ensures
        !blank(text@) ==> link_bandwidth(profiles, src_host, src, dst) == Some(text@),
        blank(text@) ==> link_bandwidth(profiles, src_host, src, dst) is None,
{
    lemma_first_entry_is_found(profiles.by_nic@, src_host, src, at);
}

/// The ends play the two roles of a pair, in its order or against it.
pub open spec fn plays(pair: Seq<char>, src: NicInfo, dst: NicInfo, dir: Seq<char>) -> bool {
    cut_at(pair, "<->"@) matches Some(ends) && {
        let forth = alike(trimmed(ends.0), trimmed(src.role@)) && alike(
            trimmed(ends.1),
            trimmed(dst.role@),
        );
        let back = alike(trimmed(ends.1), trimmed(src.role@)) && alike(
            trimmed(ends.0),
            trimmed(dst.role@),
        );
        if dir == "ab"@ {
            forth
        } else {
            dir == "ba"@ && back && !forth
        }
    }
}

proof fn lemma_first_role_target(
    profiles: Seq<RoleProfile>,
    src: NicInfo,
    dst: NicInfo,
    i: int,
    at: int,
    dir: Seq<char>,
    v: Double,
)
    requires
        0 <= i <= at < profiles.len(),
        plays(profiles[at].pair@, src, dst, dir),
        asks_for(profiles[at].rx_target_mbps, dir, v),
        forall|j: int, other: Seq<char>|
            i <= j < at && #[trigger] plays(profiles[j].pair@, src, dst, other) ==> silent(
                profiles[j].rx_target_mbps,
                other,
            ),
    ensures
        role_target(profiles, src, dst, i) == Some(v),
    decreases at - i,
{
    reveal_strlit("ab");
    reveal_strlit("ba");
    assert("ab"@[0] != "ba"@[0]);
    lemma_threshold_of_a_direction(profiles[at].rx_target_mbps, dir, v);
    if i < at {
        if plays(profiles[i].pair@, src, dst, "ab"@) {
            lemma_threshold_of_a_direction(profiles[i].rx_target_mbps, "ab"@, v);
        } else if plays(profiles[i].pair@, src, dst, "ba"@) {
            lemma_threshold_of_a_direction(profiles[i].rx_target_mbps, "ba"@, v);
        }
        lemma_first_role_target(profiles, src, dst, i + 1, at, dir, v);
    }
}

/// Where no entry about the receiver gives a number, the first pair of roles that the ends play
/// and that asks for a rate in their direction sets the threshold.
pub proof fn lemma_roles_set_the_threshold(
    profiles: LinkProfiles,
    src: NicInfo,
    dst_host: Seq<char>,
    dst: NicInfo,
    at: int,
    dir: Seq<char>,
    v: Double,
)
    requires
        forall|i: int|
            first_about(profiles.by_nic@, dst_host, dst, i) ==> (
            #[trigger] profiles.by_nic@[i]).rx_target_mbps is None,
        0 <= at < profiles.by_role@.len(),
        plays(profiles.by_role@[at].pair@, src, dst, dir),
        asks_for(profiles.by_role@[at].rx_target_mbps, dir, v),
        forall|j: int, other: Seq<char>|
            0 <= j < at && #[trigger] plays(profiles.by_role@[j].pair@, src, dst, other) ==> silent(
                profiles.by_role@[j].rx_target_mbps,
                other,
            ),
    ensures
        link_target(profiles, src, dst_host, dst) == Some(v),
{
    lemma_first_entry(profiles.by_nic@, dst_host, dst, 0);
    let found = profile_index(profiles.by_nic@, dst_host, dst, 0);
    if found < profiles.by_nic@.len() {
        assert(first_about(profiles.by_nic@, dst_host, dst, found));
    }
    lemma_first_role_target(profiles.by_role@, src, dst, 0, at, dir, v);
}

/// The text that speaks for a direction.
pub open spec fn text_for(texts: DirectionalBandwidthView, dir: Seq<char>) -> Option<Seq<char>> {
    if dir == "ab"@ && texts.ab is Some {
        texts.ab
    } else if dir == "ab"@ {
        texts.forward
    } else if dir == "ba"@ {
        texts.ba
    } else {
        None
    }
}

proof fn lemma_first_role_bandwidth(
    profiles: Seq<RoleProfile>,
    src: NicInfo,
    dst: NicInfo,
    i: int,
    at: int,
    dir: Seq<char>,
)
    requires
        0 <= i <= at < profiles.len(),
        plays(profiles[at].pair@, src, dst, dir),
        text_for(profiles[at].udp_bandwidth@, dir) is Some,
        forall|j: int, other: Seq<char>|
            i <= j < at && #[trigger] plays(profiles[j].pair@, src, dst, other) ==> text_for(
                profiles[j].udp_bandwidth@,
                other,
            ) is None,
    ensures
        role_bandwidth(profiles, src, dst, i) == text_for(profiles[at].udp_bandwidth@, dir),
    decreases at - i,
{
    reveal_strlit("ab");
    reveal_strlit("ba");
    assert("ab"@[0] != "ba"@[0]);
    if i < at {
        if plays(profiles[i].pair@, src, dst, "ab"@) {
        } else if plays(profiles[i].pair@, src, dst, "ba"@) {
        }
        lemma_first_role_bandwidth(profiles, src, dst, i + 1, at, dir);
    }
}

/// Where no entry about the sender gives a text, the first pair of roles that the ends play and
/// that has a text for their direction sets the bandwidth.
pub proof fn lemma_roles_set_the_bandwidth(
    profiles: LinkProfiles,
    src_host: Seq<char>,
    src: NicInfo,
    dst: NicInfo,
    at: int,
    dir: Seq<char>,
    text: Seq<char>,
)
    requires
        forall|i: int|
            first_about(profiles.by_nic@, src_host, src, i) ==> (
            #[trigger] profiles.by_nic@[i]).udp_bandwidth is None,
        0 <= at < profiles.by_role@.len(),
        plays(profiles.by_role@[at].pair@, src, dst, dir),
        text_for(profiles.by_role@[at].udp_bandwidth@, dir) == Some(text),
        forall|j: int, other: Seq<char>|
            0 <= j < at && #[trigger] plays(profiles.by_role@[j].pair@, src, dst, other)
                ==> text_for(profiles.by_role@[j].udp_bandwidth@, other) is None,
    ensures
        !blank(text) ==> link_bandwidth(profiles, src_host, src, dst) == Some(text),
        blank(text) ==> link_bandwidth(profiles, src_host, src, dst) is None,
{
    lemma_first_entry(profiles.by_nic@, src_host, src, 0);
    let found = profile_index(profiles.by_nic@, src_host, src, 0);
    if found < profiles.by_nic@.len() {
        assert(first_about(profiles.by_nic@, src_host, src, found));
    }
    lemma_first_role_bandwidth(profiles.by_role@, src, dst, 0, at, dir);
}

} // verus!
