//! Rate thresholds and load ceilings of links.
use vstd::prelude::*;
use vstd::string::*;
use crate::config::{LinkProfiles, NicProfile, RateCheckCfg, RateMode, RateTargets, RoleProfile};
use crate::number::{double_of, keep_usable, usable_only, Double};
use crate::protocol::NicInfo;
use crate::text::{
    alike, ascii_upper, blank, copy_opt_text, cut_at, in_capitals, is_alike, is_blank, opt_text,
    opt_view, same, split_once_at, to_upper, trim, trimmed, uppered,
};

verus! {

/// The bit pattern of 1.
pub const ONE_BITS: u64 = 0x3ff0_0000_0000_0000;

/// The bit pattern of 1000.
pub const THOUSAND_BITS: u64 = 0x408f_4000_0000_0000;

/// The bit pattern of 10000.
pub const TEN_THOUSAND_BITS: u64 = 0x40c3_8800_0000_0000;

// ---------------------------------------------------------------------------
// Ceilings
// ---------------------------------------------------------------------------

/// The rate up to which an interface of a role, in capitals, can be loaded, before it is held to at
/// least one Mbps. The negotiated speed counts only for roles that are not known.
pub open spec fn role_ceiling(role: Seq<char>, speed: u64, cfg: RateCheckCfg) -> Option<Double> {
    if role == "SGMII1G"@ {
        Some(Double { bits: THOUSAND_BITS })
    } else if role == "SGMII2.5G"@ || role == "RNDIS"@ {
        Some(cfg.cpe_path_ceiling_mbps)
    } else if role == "WIFI"@ || role == "WIFI2.4G"@ || role == "WIFI5G"@ || role == "WIFI6G"@ {
        Some(cfg.wifi_payload_ceiling_mbps)
    } else if role == "10GUSB"@ || role == "10GETH"@ {
        Some(Double { bits: TEN_THOUSAND_BITS })
    } else if speed > 0 {
        Some(Double { bits: double_of(speed as nat) as u64 })
    } else {
        None
    }
}

/// A value, or one where it is not greater than one.
pub open spec fn one_at_least(value: Double) -> Double {
    if value.over(ONE_BITS) {
        value
    } else {
        Double { bits: ONE_BITS }
    }
}

/// The rate up to which an interface of a role, in capitals, and of a speed can be loaded.
pub open spec fn load_ceiling(role: Seq<char>, speed: u64, cfg: RateCheckCfg) -> Option<Double> {
    match role_ceiling(role, speed, cfg) {
        Some(cap) => Some(one_at_least(cap)),
        None => None,
    }
}

/// The rate up to which an interface can be loaded.
pub open spec fn nic_ceiling(nic: NicInfo, cfg: RateCheckCfg) -> Option<Double> {
    load_ceiling(in_capitals(nic.role@), nic.speed_mbps, cfg)
}

/// The rate up to which an interface can be loaded.
pub fn nic_payload_ceiling_mbps(nic: &NicInfo, cfg: &RateCheckCfg) -> (r: Option<Double>)
    ensures
        r == nic_ceiling(*nic, *cfg),
{
    let role = to_upper(nic.role.as_str());
    ceiling_of_role(role.as_str(), nic.speed_mbps, cfg)
}

/// The rate up to which an interface of a role, in capitals, and of a speed can be loaded.
pub fn ceiling_of_role(role: &str, speed_mbps: u64, cfg: &RateCheckCfg) -> (r: Option<Double>)
    ensures
        r == load_ceiling(role@, speed_mbps, *cfg),
{
    let cap = if same(role, "SGMII1G") {
        Double { bits: THOUSAND_BITS }
    } else if same(role, "SGMII2.5G") || same(role, "RNDIS") {
        cfg.cpe_path_ceiling_mbps
    } else if same(role, "WIFI") || same(role, "WIFI2.4G") || same(role, "WIFI5G") || same(
        role,
        "WIFI6G",
    ) {
        cfg.wifi_payload_ceiling_mbps
    } else if same(role, "10GUSB") || same(role, "10GETH") {
        Double { bits: TEN_THOUSAND_BITS }
    } else if speed_mbps > 0 {
        Double::of_count(speed_mbps)
    } else {
        return None;
    };
    if cap.is_over(ONE_BITS) {
        Some(cap)
    } else {
        Some(Double { bits: ONE_BITS })
    }
}

/// The rate up to which a path can be loaded: the lower of its ends' as far as they are known.
pub open spec fn path_ceiling(src: NicInfo, dst: NicInfo, cfg: RateCheckCfg) -> Option<Double> {
    match (nic_ceiling(src, cfg), nic_ceiling(dst, cfg)) {
        (Some(a), Some(b)) => Some(
            if a.bits <= b.bits {
                a
            } else {
                b
            },
        ),
        (Some(v), None) => Some(v),
        (None, Some(v)) => Some(v),
        (None, None) => None,
    }
}

/// The rate up to which a path can be loaded.
pub fn path_payload_ceiling_mbps(src: &NicInfo, dst: &NicInfo, cfg: &RateCheckCfg) -> (r: Option<
    Double,
>)
    ensures
        r == path_ceiling(*src, *dst, *cfg),
{
    match (nic_payload_ceiling_mbps(src, cfg), nic_payload_ceiling_mbps(dst, cfg)) {
        (Some(a), Some(b)) => if a.bits <= b.bits {
            Some(a)
        } else {
            Some(b)
        },
        (Some(v), None) => Some(v),
        (None, Some(v)) => Some(v),
        (None, None) => None,
    }
}

/// A path is loaded no higher than either end allows, and from one Mbps up.
pub proof fn lemma_path_ceiling_binds_both_ends(src: NicInfo, dst: NicInfo, cfg: RateCheckCfg)
    ensures
        path_ceiling(src, dst, cfg) == path_ceiling(dst, src, cfg),
        nic_ceiling(src, cfg) is Some ==> path_ceiling(src, dst, cfg) is Some && path_ceiling(
            src,
            dst,
            cfg,
        )->0.bits <= nic_ceiling(src, cfg)->0.bits,
        path_ceiling(src, dst, cfg) is Some ==> ONE_BITS <= path_ceiling(src, dst, cfg)->0.bits,
{
}

// ---------------------------------------------------------------------------
// Thresholds
// ---------------------------------------------------------------------------

/// The threshold that is known for a direction between the two ten-gigabit interfaces.
pub open spec fn evb_target(src: NicInfo, dst: NicInfo, cfg: RateCheckCfg) -> Option<Double> {
    let (from, to) = (uppered(src.role@), uppered(dst.role@));
    if from == "10GUSB"@ && to == "10GETH"@ {
        usable_only(Some(cfg.evb_usb_to_eth_target_mbps))
    } else if from == "10GETH"@ && to == "10GUSB"@ {
        usable_only(Some(cfg.evb_eth_to_usb_target_mbps))
    } else {
        None
    }
}

/// The threshold that is known for a direction between the two ten-gigabit interfaces.
pub fn auto_evb_target_mbps(src: &NicInfo, dst: &NicInfo, cfg: &RateCheckCfg) -> (r: Option<Double>)
    ensures
        r == evb_target(*src, *dst, *cfg),
{
    let from = ascii_upper(src.role.as_str());
    let to = ascii_upper(dst.role.as_str());
    if same(from.as_str(), "10GUSB") && same(to.as_str(), "10GETH") {
        keep_usable(Some(cfg.evb_usb_to_eth_target_mbps))
    } else if same(from.as_str(), "10GETH") && same(to.as_str(), "10GUSB") {
        keep_usable(Some(cfg.evb_eth_to_usb_target_mbps))
    } else {
        None
    }
}

/// What is decided for one direction of a link.
#[derive(Debug)]
pub struct LinkPolicy {
    /// The threshold of the receiving interface; `None` leaves it to what comes next.
    pub rx_target_mbps: Option<Double>,
    /// The bandwidth of one stream; `None` leaves the load as it is.
    pub udp_bandwidth: Option<String>,
}

/// Whether a profile is about an interface of a host.
pub open spec fn profile_matches(profile: NicProfile, host: Seq<char>, nic: NicInfo) -> bool {
    alike(profile.host@, host) && profile.name@ == nic.name@ && (profile.ipv4@.len() == 0
        || profile.ipv4@ == nic.ipv4@)
}

/// Whether a profile is about an interface of a host.
pub fn nic_profile_matches(profile: &NicProfile, host: &str, nic: &NicInfo) -> (r: bool)
    ensures
        r == profile_matches(*profile, host@, *nic),
{
    is_alike(profile.host.as_str(), host) && same(profile.name.as_str(), nic.name.as_str()) && (
    profile.ipv4.as_str().is_empty() || same(profile.ipv4.as_str(), nic.ipv4.as_str()))
}

/// The direction that a link has in a pair of roles: `A<->B` read from the left or from the right.
pub open spec fn pair_direction(pair: Seq<char>, src: NicInfo, dst: NicInfo) -> Option<Seq<char>> {
    match cut_at(pair, "<->"@) {
        None => None,
        Some((left, right)) => {
            let (a, b) = (trimmed(left), trimmed(right));
            let (from, to) = (trimmed(src.role@), trimmed(dst.role@));
            if alike(a, from) && alike(b, to) {
                Some("ab"@)
            } else if alike(b, from) && alike(a, to) {
                Some("ba"@)
            } else {
                None
            }
        },
    }
}

/// The direction that a link has in a pair of roles.
pub fn role_pair_direction(pair: &str, src: &NicInfo, dst: &NicInfo) -> (r: Option<&'static str>)
    ensures
        opt_view(r) == pair_direction(pair@, *src, *dst),
{
    let (left, right) = match split_once_at(pair, "<->") {
        Some(parts) => parts,
        None => {
            return None;
        },
    };
    let (a, b) = (trim(left), trim(right));
    let from = trim(src.role.as_str());
    let to = trim(dst.role.as_str());
    if is_alike(a, from) && is_alike(b, to) {
        Some("ab")
    } else if is_alike(b, from) && is_alike(a, to) {
        Some("ba")
    } else {
        None
    }
}

/// The index of the first profile from `i` on that is about an interface; the length where there is
/// none.
pub open spec fn profile_index(
    profiles: Seq<NicProfile>,
    host: Seq<char>,
    nic: NicInfo,
    i: int,
) -> int
    decreases profiles.len() - i,
{
    if i < 0 || i >= profiles.len() {
        profiles.len() as int
    } else if profile_matches(profiles[i], host, nic) {
        i
    } else {
        profile_index(profiles, host, nic, i + 1)
    }
}

/// The index of the first profile that is about an interface; the length where there is none.
pub fn find_profile(profiles: &Vec<NicProfile>, host: &str, nic: &NicInfo) -> (r: usize)
    ensures
        r == profile_index(profiles@, host@, *nic, 0),
        r <= profiles@.len(),
{
    let mut i: usize = 0;
    while i < profiles.len()
        invariant
            i <= profiles@.len(),
            profile_index(profiles@, host@, *nic, 0) == profile_index(
                profiles@,
                host@,
                *nic,
                i as int,
            ),
        decreases profiles@.len() - i,
    {
        if nic_profile_matches(&profiles[i], host, nic) {
            return i;
        }
        i += 1;
    }
    i
}

/// The threshold that role pairs from index `i` on give for a link.
pub open spec fn role_target(
    profiles: Seq<RoleProfile>,
    src: NicInfo,
    dst: NicInfo,
    i: int,
) -> Option<Double>
    decreases profiles.len() - i,
{
    if i < 0 || i >= profiles.len() {
        None
    } else {
        let own = match pair_direction(profiles[i].pair@, src, dst) {
            Some(dir) => profiles[i].rx_target_mbps.target(dir),
            None => None,
        };
        if own is Some {
            own
        } else {
            role_target(profiles, src, dst, i + 1)
        }
    }
}

/// The bandwidth that role pairs from index `i` on give for a link.
pub open spec fn role_bandwidth(
    profiles: Seq<RoleProfile>,
    src: NicInfo,
    dst: NicInfo,
    i: int,
) -> Option<Seq<char>>
    decreases profiles.len() - i,
{
    if i < 0 || i >= profiles.len() {
        None
    } else {
        let own = match pair_direction(profiles[i].pair@, src, dst) {
            Some(dir) => profiles[i].udp_bandwidth@.bandwidth(dir),
            None => None,
        };
        if own is Some {
            own
        } else {
            role_bandwidth(profiles, src, dst, i + 1)
        }
    }
}

/// The threshold of a link: that of the receiving interface, or that of the roles.
pub open spec fn link_target(
    profiles: LinkProfiles,
    src: NicInfo,
    dst_host: Seq<char>,
    dst: NicInfo,
) -> Option<Double> {
    let at = profile_index(profiles.by_nic@, dst_host, dst, 0);
    usable_only(
        if at < profiles.by_nic@.len() && profiles.by_nic@[at].rx_target_mbps is Some {
            profiles.by_nic@[at].rx_target_mbps
        } else {
            role_target(profiles.by_role@, src, dst, 0)
        },
    )
}

/// The bandwidth of a link: that of the sending interface, or that of the roles.
pub open spec fn link_bandwidth(
    profiles: LinkProfiles,
    src_host: Seq<char>,
    src: NicInfo,
    dst: NicInfo,
) -> Option<Seq<char>> {
    let at = profile_index(profiles.by_nic@, src_host, src, 0);
    let found = if at < profiles.by_nic@.len() && profiles.by_nic@[at].udp_bandwidth is Some {
        opt_text(profiles.by_nic@[at].udp_bandwidth)
    } else {
        role_bandwidth(profiles.by_role@, src, dst, 0)
    };
    match found {
        Some(text) => if blank(text) {
            None
        } else {
            found
        },
        None => None,
    }
}

/// The threshold that role pairs give for a link.
pub fn find_role_target(profiles: &Vec<RoleProfile>, src: &NicInfo, dst: &NicInfo) -> (r: Option<
    Double,
>)
    ensures
        r == role_target(profiles@, *src, *dst, 0),
{
    let mut i: usize = 0;
    while i < profiles.len()
        invariant
            i <= profiles@.len(),
            role_target(profiles@, *src, *dst, 0) == role_target(
                profiles@,
                *src,
                *dst,
                i as int,
            ),
        decreases profiles@.len() - i,
    {
        if let Some(dir) = role_pair_direction(profiles[i].pair.as_str(), src, dst) {
            let own = profiles[i].rx_target_mbps.for_direction(dir);
            if own.is_some() {
                return own;
            }
        }
        i += 1;
    }
    None
}

/// The bandwidth that role pairs give for a link.
pub fn find_role_bandwidth(profiles: &Vec<RoleProfile>, src: &NicInfo, dst: &NicInfo) -> (r: Option<
    String,
>)
    ensures
        opt_text(r) == role_bandwidth(profiles@, *src, *dst, 0),
{
    let mut i: usize = 0;
    while i < profiles.len()
        invariant
            i <= profiles@.len(),
            role_bandwidth(profiles@, *src, *dst, 0) == role_bandwidth(
                profiles@,
                *src,
                *dst,
                i as int,
            ),
        decreases profiles@.len() - i,
    {
        if let Some(dir) = role_pair_direction(profiles[i].pair.as_str(), src, dst) {
            let own = profiles[i].udp_bandwidth.for_direction(dir);
            if own.is_some() {
                return own;
            }
        }
        i += 1;
    }
    None
}

/// What the profiles decide for one direction of a link: an interface's own profile comes before
/// the roles'. The threshold goes by the receiving end, the bandwidth by the sending end.
pub fn resolve_link_policy(
    profiles: &LinkProfiles,
    src_host: &str,
    src: &NicInfo,
    dst_host: &str,
    dst: &NicInfo,
) -> (r: LinkPolicy)
    ensures
        r.rx_target_mbps == link_target(*profiles, *src, dst_host@, *dst),
        opt_text(r.udp_bandwidth) == link_bandwidth(*profiles, src_host@, *src, *dst),
{
    let receiver: usize = find_profile(&profiles.by_nic, dst_host, dst);
    let target = if receiver < profiles.by_nic.len()
        && profiles.by_nic[receiver].rx_target_mbps.is_some() {
        profiles.by_nic[receiver].rx_target_mbps
    } else {
        find_role_target(&profiles.by_role, src, dst)
    };
    let sender: usize = find_profile(&profiles.by_nic, src_host, src);
    let bandwidth = if sender < profiles.by_nic.len()
        && profiles.by_nic[sender].udp_bandwidth.is_some() {
        copy_opt_text(&profiles.by_nic[sender].udp_bandwidth)
    } else {
        find_role_bandwidth(&profiles.by_role, src, dst)
    };
    let udp_bandwidth = match bandwidth {
        Some(text) => if is_blank(text.as_str()) {
            None
        } else {
            Some(text)
        },
        None => None,
    };
    LinkPolicy { rx_target_mbps: keep_usable(target), udp_bandwidth }
}

/// An interface's own threshold comes before anything that its role gives, in whatever pair it is.
pub proof fn lemma_own_threshold_comes_first(
    profiles: LinkProfiles,
    src: NicInfo,
    other: NicInfo,
    dst_host: Seq<char>,
    dst: NicInfo,
)
    requires
        ({
            let at = profile_index(profiles.by_nic@, dst_host, dst, 0);
            at < profiles.by_nic@.len() && profiles.by_nic@[at].rx_target_mbps is Some
        }),
    ensures
        link_target(profiles, src, dst_host, dst) == link_target(profiles, other, dst_host, dst),
        link_target(profiles, src, dst_host, dst) == usable_only(
            profiles.by_nic@[profile_index(profiles.by_nic@, dst_host, dst, 0)].rx_target_mbps,
        ),
{
}

/// Without profiles nothing is decided.
pub proof fn lemma_no_profiles_no_policy(
    profiles: LinkProfiles,
    src_host: Seq<char>,
    src: NicInfo,
    dst_host: Seq<char>,
    dst: NicInfo,
)
    requires
        profiles.by_nic@.len() == 0,
        profiles.by_role@.len() == 0,
    ensures
        link_target(profiles, src, dst_host, dst) is None,
        link_bandwidth(profiles, src_host, src, dst) is None,
{
}

/// The threshold that a link is held to: none while rates are only observed; else the given one,
/// that of the test before the common one, or the one that is known for its ends.
pub open spec fn target_of(
    mode: RateMode,
    targets: RateTargets,
    direction: Seq<char>,
    src: NicInfo,
    dst: NicInfo,
    cfg: RateCheckCfg,
) -> Option<Double> {
    let own = targets.target(direction);
    let common = cfg.targets_mbps.target(direction);
    match mode {
        RateMode::Observe | RateMode::Discover => None,
        RateMode::Verify | RateMode::Auto => if own is Some {
            own
        } else if common is Some {
            common
        } else {
            evb_target(src, dst, cfg)
        },
    }
}

/// The threshold that a link is held to.
pub fn resolve_target_mbps(
    mode: RateMode,
    targets: &RateTargets,
    direction: &str,
    src: &NicInfo,
    dst: &NicInfo,
    cfg: &RateCheckCfg,
) -> (r: Option<Double>)
    ensures
        r == target_of(mode, *targets, direction@, *src, *dst, *cfg),
{
    match mode {
        RateMode::Observe | RateMode::Discover => None,
        RateMode::Verify | RateMode::Auto => {
            let own = targets.for_direction(direction);
            if own.is_some() {
                return own;
            }
            let common = cfg.targets_mbps.for_direction(direction);
            if common.is_some() {
                return common;
            }
            auto_evb_target_mbps(src, dst, cfg)
        },
    }
}

/// A threshold that a link is held to is one that rates can be held to.
pub proof fn lemma_targets_are_usable(
    mode: RateMode,
    targets: RateTargets,
    direction: Seq<char>,
    src: NicInfo,
    dst: NicInfo,
    cfg: RateCheckCfg,
)
    ensures
        target_of(mode, targets, direction, src, dst, cfg) is Some ==> target_of(
            mode,
            targets,
            direction,
            src,
            dst,
            cfg,
        )->0.usable(),
{
}

/// How rates are judged in the end: `Auto` verifies where there is a threshold, else observes.
pub open spec fn final_mode(mode: RateMode, target: Option<Double>) -> RateMode {
    match mode {
        RateMode::Auto => if target is Some {
            RateMode::Verify
        } else {
            RateMode::Observe
        },
        other => other,
    }
}

/// How rates are judged in the end.
pub fn effective_mode(mode: RateMode, target_mbps: Option<Double>) -> (r: RateMode)
    ensures
        r == final_mode(mode, target_mbps),
{
    match mode {
        RateMode::Auto => if target_mbps.is_some() {
            RateMode::Verify
        } else {
            RateMode::Observe
        },
        other => other,
    }
}

} // verus!
