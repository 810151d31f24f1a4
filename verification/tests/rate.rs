use cpe_bench::config::{
    DirectionalBandwidth, LinkProfiles, NicProfile, RateCheckCfg, RateMode, RateTargets, RoleProfile,
};
use cpe_bench::number::Double;
use cpe_bench::protocol::NicInfo;
use cpe_bench::rate::{
    auto_evb_target_mbps, ceiling_of_role, effective_mode, nic_payload_ceiling_mbps, path_payload_ceiling_mbps,
    resolve_link_policy, resolve_target_mbps, role_pair_direction,
};

fn double(value: f64) -> Double {
    Double {
        bits: value.to_bits(),
    }
}

fn mbps(value: f64) -> Option<Double> {
    Some(double(value))
}

fn rate_check() -> RateCheckCfg {
    RateCheckCfg {
        mode: RateMode::Auto,
        targets_mbps: RateTargets::default(),
        cpe_path_ceiling_mbps: double(2500.0),
        wifi_payload_ceiling_mbps: double(2000.0),
        evb_usb_to_eth_target_mbps: double(6400.0),
        evb_eth_to_usb_target_mbps: double(8400.0),
    }
}

fn nic(role: &str, speed: u64) -> NicInfo {
    NicInfo {
        role: role.into(),
        speed_mbps: speed,
        ..Default::default()
    }
}

fn named_nic(name: &str, role: &str, ip: &str, speed: u64) -> NicInfo {
    NicInfo {
        name: name.into(),
        role: role.into(),
        ipv4: ip.into(),
        speed_mbps: speed,
        ..Default::default()
    }
}

fn role_profile(pair: &str, ab: f64, ba: f64, ab_bw: &str, ba_bw: &str) -> RoleProfile {
    RoleProfile {
        pair: pair.into(),
        rx_target_mbps: RateTargets {
            ab: mbps(ab),
            ba: mbps(ba),
            forward: None,
        },
        udp_bandwidth: DirectionalBandwidth {
            ab: Some(ab_bw.into()),
            ba: Some(ba_bw.into()),
            forward: None,
        },
    }
}

#[test]
fn role_pairs_resolve_each_direction_independently() {
    let profiles = LinkProfiles {
        by_role: vec![role_profile(
            "SGMII2.5G<->WIFI5G",
            1600.0,
            40.0,
            "2.6G",
            "500m",
        )],
        by_nic: Vec::new(),
    };
    let eth = named_nic("以太网 6", "SGMII2.5G", "192.168.0.101", 2500);
    let wifi = named_nic("WLAN 3", "WIFI5G", "192.168.0.104", 2882);

    let forward = resolve_link_policy(&profiles, "master", &eth, "agent", &wifi);
    assert_eq!(forward.rx_target_mbps, mbps(1600.0));
    assert_eq!(forward.udp_bandwidth.as_deref(), Some("2.6G"));

    let reverse = resolve_link_policy(&profiles, "agent", &wifi, "master", &eth);
    assert_eq!(reverse.rx_target_mbps, mbps(40.0));
    assert_eq!(reverse.udp_bandwidth.as_deref(), Some("500m"));
}

#[test]
fn an_unrelated_pair_resolves_to_nothing() {
    let profiles = LinkProfiles {
        by_role: vec![role_profile(
            "SGMII2.5G<->WIFI5G",
            1600.0,
            40.0,
            "2.6G",
            "500m",
        )],
        by_nic: Vec::new(),
    };
    let a = named_nic("以太网", "SGMII1G", "192.168.0.102", 1000);
    let b = named_nic("以太网 5", "RNDIS", "192.168.0.100", 3750);
    let policy = resolve_link_policy(&profiles, "agent", &a, "master", &b);
    assert!(policy.rx_target_mbps.is_none());
    assert!(policy.udp_bandwidth.is_none());
}

#[test]
fn a_single_nic_override_beats_the_role_default() {
    let profiles = LinkProfiles {
        by_role: vec![role_profile(
            "SGMII2.5G<->WIFI5G",
            1600.0,
            40.0,
            "2.6G",
            "500m",
        )],
        by_nic: vec![NicProfile {
            host: "agent".into(),
            name: "WLAN 3".into(),
            ipv4: "192.168.0.104".into(),
            rx_target_mbps: mbps(1800.0),
            rx_target_percent: None,
            udp_bandwidth: Some("2.8G".into()),
            udp_length: None,
        }],
    };
    let eth = named_nic("以太网 6", "SGMII2.5G", "192.168.0.101", 2500);
    let wifi = named_nic("WLAN 3", "WIFI5G", "192.168.0.104", 2882);

    let forward = resolve_link_policy(&profiles, "master", &eth, "agent", &wifi);
    assert_eq!(forward.rx_target_mbps, mbps(1800.0));
    assert_eq!(forward.udp_bandwidth.as_deref(), Some("2.6G"));

    let reverse = resolve_link_policy(&profiles, "agent", &wifi, "master", &eth);
    assert_eq!(reverse.udp_bandwidth.as_deref(), Some("2.8G"));
    assert_eq!(reverse.rx_target_mbps, mbps(40.0));
}

#[test]
fn a_single_nic_override_respects_the_optional_ipv4_guard() {
    let profiles = LinkProfiles {
        by_role: Vec::new(),
        by_nic: vec![NicProfile {
            host: "agent".into(),
            name: "WLAN 3".into(),
            ipv4: "192.168.0.104".into(),
            rx_target_mbps: mbps(1800.0),
            rx_target_percent: None,
            udp_bandwidth: None,
            udp_length: None,
        }],
    };
    let eth = named_nic("以太网 6", "SGMII2.5G", "192.168.0.101", 2500);
    let moved = named_nic("WLAN 3", "WIFI5G", "192.168.0.150", 2882);
    assert_eq!(
        resolve_link_policy(&profiles, "master", &eth, "agent", &moved).rx_target_mbps,
        None
    );

    let matching = named_nic("WLAN 3", "WIFI5G", "192.168.0.104", 2882);
    assert_eq!(
        resolve_link_policy(&profiles, "master", &eth, "master", &matching).rx_target_mbps,
        None
    );
    assert_eq!(
        resolve_link_policy(&profiles, "master", &eth, "agent", &matching).rx_target_mbps,
        mbps(1800.0)
    );
}

#[test]
fn an_empty_profile_set_changes_nothing() {
    let eth = named_nic("以太网 6", "SGMII2.5G", "192.168.0.101", 2500);
    let wifi = named_nic("WLAN 3", "WIFI5G", "192.168.0.104", 2882);
    let policy = resolve_link_policy(&LinkProfiles::default(), "master", &eth, "agent", &wifi);
    assert!(policy.rx_target_mbps.is_none());
    assert!(policy.udp_bandwidth.is_none());
}

#[test]
fn test_cpe_path_ceiling() {
    let cfg = rate_check();
    assert_eq!(
        path_payload_ceiling_mbps(&nic("10GUSB", 4200), &nic("SGMII2.5G", 2500), &cfg),
        mbps(2500.0)
    );
    assert_eq!(
        path_payload_ceiling_mbps(&nic("RNDIS", 3700), &nic("10GETH", 10000), &cfg),
        mbps(2500.0)
    );
    assert_eq!(
        path_payload_ceiling_mbps(&nic("SGMII1G", 1000), &nic("10GETH", 10000), &cfg),
        mbps(1000.0)
    );
}

#[test]
fn test_evb_direction_targets() {
    let cfg = rate_check();
    assert_eq!(
        auto_evb_target_mbps(&nic("10GUSB", 4200), &nic("10GETH", 10000), &cfg),
        mbps(6400.0)
    );
    assert_eq!(
        auto_evb_target_mbps(&nic("10GETH", 10000), &nic("10GUSB", 10000), &cfg),
        mbps(8400.0)
    );
    assert_eq!(
        auto_evb_target_mbps(&nic("10GUSB", 10000), &nic("SGMII2.5G", 2500), &cfg),
        None
    );
    assert_eq!(
        auto_evb_target_mbps(&nic("10gusb", 4200), &nic("10geth", 10000), &cfg),
        mbps(6400.0)
    );
}

#[test]
fn test_explicit_targets_override_evb_defaults() {
    let usb = nic("10GUSB", 4200);
    let eth = nic("10GETH", 10000);
    let mut cfg = rate_check();
    cfg.targets_mbps.ab = mbps(6200.0);
    assert_eq!(
        resolve_target_mbps(
            RateMode::Auto,
            &RateTargets::default(),
            "ab",
            &usb,
            &eth,
            &cfg,
        ),
        mbps(6200.0)
    );

    let scenario_targets = RateTargets {
        ab: mbps(6100.0),
        ba: mbps(8300.0),
        ..Default::default()
    };
    assert_eq!(
        resolve_target_mbps(RateMode::Auto, &scenario_targets, "ab", &usb, &eth, &cfg,),
        mbps(6100.0)
    );
    assert_eq!(
        resolve_target_mbps(RateMode::Auto, &scenario_targets, "ba", &eth, &usb, &cfg,),
        mbps(8300.0)
    );
}

#[test]
fn test_modes_do_not_turn_observation_into_acceptance() {
    let usb = nic("10GUSB", 4200);
    let eth = nic("10GETH", 10000);
    let targets = RateTargets {
        forward: mbps(6000.0),
        ..Default::default()
    };
    let cfg = rate_check();

    assert_eq!(
        resolve_target_mbps(RateMode::Observe, &targets, "ab", &usb, &eth, &cfg),
        None
    );
    assert_eq!(
        resolve_target_mbps(RateMode::Discover, &targets, "ab", &usb, &eth, &cfg),
        None
    );
    assert_eq!(
        effective_mode(RateMode::Auto, mbps(6000.0)),
        RateMode::Verify
    );
    assert_eq!(effective_mode(RateMode::Auto, None), RateMode::Observe);
}

#[test]
fn test_invalid_automatic_target_is_not_accepted() {
    let usb = nic("10GUSB", 4200);
    let eth = nic("10GETH", 10000);
    let cfg = RateCheckCfg {
        evb_usb_to_eth_target_mbps: double(0.0),
        ..rate_check()
    };
    assert_eq!(auto_evb_target_mbps(&usb, &eth, &cfg), None);

    let cfg = RateCheckCfg {
        evb_usb_to_eth_target_mbps: double(f64::INFINITY),
        ..rate_check()
    };
    assert_eq!(auto_evb_target_mbps(&usb, &eth, &cfg), None);
}

#[test]
fn ceilings_of_single_interfaces() {
    let cfg = rate_check();
    for (role, speed, expected) in [
        ("wifi5g", 2882, mbps(2000.0)),
        ("10GUSB", 4200, mbps(10_000.0)),
        ("SGMII1G", 10, mbps(1000.0)),
        ("UNKNOWN", 100, mbps(100.0)),
        ("UNKNOWN", 0, None),
        ("UNKNOWN", 9_007_199_254_740_993, mbps(9_007_199_254_740_992.0)),
        ("UNKNOWN", u64::MAX, mbps(u64::MAX as f64)),
    ] {
        assert_eq!(nic_payload_ceiling_mbps(&nic(role, speed), &cfg), expected, "{role} {speed}");
    }
    let low = RateCheckCfg {
        wifi_payload_ceiling_mbps: double(f64::NAN),
        cpe_path_ceiling_mbps: double(-3.0),
        ..cfg
    };
    assert_eq!(nic_payload_ceiling_mbps(&nic("WIFI", 1), &low), mbps(1.0));
    assert_eq!(nic_payload_ceiling_mbps(&nic("RNDIS", 1), &low), mbps(1.0));
    assert_eq!(
        path_payload_ceiling_mbps(&nic("UNKNOWN", 0), &nic("SGMII1G", 1), &cfg),
        mbps(1000.0)
    );
    assert_eq!(path_payload_ceiling_mbps(&nic("", 0), &nic("", 0), &cfg), None);
}

#[test]
fn pairs_of_roles_are_read_from_either_side() {
    let (a, b) = (nic("SGMII1G", 0), nic(" wifi5g ", 0));
    assert_eq!(role_pair_direction(" sgmii1g <-> WIFI5G ", &a, &b), Some("ab"));
    assert_eq!(role_pair_direction("SGMII1G<->WIFI5G", &b, &a), Some("ba"));
    assert_eq!(role_pair_direction("SGMII1G-WIFI5G", &a, &b), None);
    assert_eq!(role_pair_direction("SGMII1G<->RNDIS", &a, &b), None);
}

#[test]
fn targets_that_no_rate_can_meet_do_not_count() {
    let (usb, eth) = (nic("10GUSB", 4200), nic("10GETH", 10000));
    let cfg = rate_check();
    for bad in [0.0, -1.0, f64::NAN, f64::INFINITY] {
        let targets = RateTargets {
            ab: mbps(bad),
            ..Default::default()
        };
        assert_eq!(
            resolve_target_mbps(RateMode::Verify, &targets, "ab", &usb, &eth, &cfg),
            mbps(6400.0)
        );
    }
}

#[test]
fn ceilings_go_by_the_role_in_capitals() {
    let cfg = rate_check();
    assert_eq!(ceiling_of_role("WIFI5G", 0, &cfg), mbps(2000.0));
    assert_eq!(ceiling_of_role("SGMII1G", 2500, &cfg), mbps(1000.0));
    assert_eq!(ceiling_of_role("网口", 700, &cfg), mbps(700.0));
    assert_eq!(ceiling_of_role("wifi5g", 0, &cfg), None);
    assert_eq!(nic_payload_ceiling_mbps(&nic("wifi5g", 0), &cfg), mbps(2000.0));
}
