use cpe_bench::nic::classify::{
    classify_role, is_wifi_name, role_from, role_rank, sounds_wifi, ROLE_COUNT,
};
use cpe_bench::nic::counter::{FnNicCounterReader, NicCounterReader};
use cpe_bench::nic::host::{format_nic_table, ipv4_match, scan_host};
use cpe_bench::nic::monitor::{
    counter_in_file, csv_with_header, millis_u64, parse_netstat_counters, parse_netstat_ib,
    read_rx_bytes, record_counter_result, ContinuousOpts, CounterState, RateLine, Sampling,
    StopSignal,
};
use cpe_bench::nic::registry::{MonEntry, MonitorMgr};
use cpe_bench::nic::scan_linux::{
    find_gateway, gateway_from, parse_addr_json, parse_gateway_v4, read_speed, wifi_band, IfBlock,
    LinkProbe,
};
use cpe_bench::nic::scan_macos::{
    airport_info, hardware_ports, parse_ifconfig, parse_route_gateway_v4, probe_speed, Block, Probe,
};
use cpe_bench::nic::scan_windows::{
    counters, default_gateways_v4, find_default_gateway, if_rows, select_default_gateways_v4, u16z,
    Adapter, ForwardRow, IfRow, RawRow, Route, Wlan,
};
use cpe_bench::nic::{scan_linux, scan_macos, scan_windows};
use cpe_bench::protocol::{HostInfo, MonitorSample, NicInfo};

fn role(description: &str, speed: u64, wifi: bool, band: &str) -> String {
    classify_role(description, speed, wifi, band)
}

#[test]
fn test_classify() {
    assert_eq!(role("Intel AX201", 866, true, "5GHz"), "WIFI5G");
    assert_eq!(role("Intel AX201", 100, true, "2.4GHz"), "WIFI2.4G");
    assert_eq!(role("Intel AX201", 100, true, ""), "WIFI");
    assert_eq!(role("Remote NDIS based Device", 0, false, ""), "RNDIS");
    assert_eq!(role("USB RNDIS Adapter", 3700, false, ""), "RNDIS");
    assert_eq!(role("Some USB NIC", 3700, false, ""), "RNDIS");
    assert_eq!(role("Realtek 10GbE USB", 100, false, ""), "10GUSB");
    assert_eq!(role("Realtek GbE", 1000, false, ""), "SGMII1G");
    assert_eq!(role("Realtek 2.5GbE", 2500, false, ""), "SGMII2.5G");
    assert_eq!(role("Some NIC", 100, false, ""), "UNKNOWN");
}

#[test]
fn test_10g_speed_boundaries() {
    for (description, speed, expected) in [
        ("USB NIC", 4000, "RNDIS"),
        ("USB NIC", 4001, "10GUSB"),
        ("USB NIC", 8999, "10GUSB"),
        ("Ethernet", 8999, "UNKNOWN"),
        ("Ethernet", 9000, "10GETH"),
        ("USB NIC", 12_000, "10GUSB"),
        ("Ethernet", 12_001, "UNKNOWN"),
    ] {
        assert_eq!(role(description, speed, false, ""), expected);
    }
}

#[test]
fn test_rank() {
    assert!(role_rank("10GETH") < role_rank("10GUSB"));
    assert!(role_rank("SGMII2.5G") < role_rank("SGMII1G"));
    assert!(role_rank("10GUSB") < role_rank("SGMII2.5G"));
    assert!(role_rank("WIFI5G") < role_rank("WIFI2.4G"));
    assert!(role_rank("nonsense") >= ROLE_COUNT);
}

#[test]
fn test_wifi_name() {
    assert!(is_wifi_name("WLAN"));
    assert!(is_wifi_name("Wi-Fi 2"));
    assert!(is_wifi_name("无线网络连接"));
    assert!(!is_wifi_name("以太网"));
}

#[test]
fn a_six_gigahertz_band_has_a_role_of_its_own() {
    assert_eq!(role("Intel BE200", 2882, true, "6GHz"), "WIFI6G");
    assert_eq!(role("", 0, true, "60GHz"), "WIFI");
    assert!(role_rank(&role("", 0, false, "")) < ROLE_COUNT);
}

fn strings(list: &[&str]) -> Vec<String> {
    list.iter().map(|s| s.to_string()).collect()
}

fn named(name: &str, role: &str) -> NicInfo {
    NicInfo {
        name: name.into(),
        role: role.into(),
        ..Default::default()
    }
}

#[test]
fn prefixes_admit_addresses() {
    assert!(ipv4_match("10.0.0.1", &strings(&[])));
    assert!(ipv4_match("192.168.8.1", &strings(&["10.", "192.168."])));
    assert!(!ipv4_match("172.16.0.1", &strings(&["10.", "192.168."])));
    assert!(!ipv4_match("172.16.0.1", &strings(&[""])));
}

#[test]
fn a_host_lists_its_interfaces_by_rank_and_name() {
    let host = scan_host(
        "bench".into(),
        "linux".into(),
        vec![
            named("b", "SGMII1G"),
            named("z", "10GETH"),
            named("a", "SGMII1G"),
            named("w", "WIFI"),
            named("q", "nonsense"),
        ],
    );
    let names: Vec<&str> = host.interfaces.iter().map(|n| n.name.as_str()).collect();
    assert_eq!(names, vec!["z", "a", "b", "w", "q"]);
    assert_eq!(host.hostname, "bench");
    assert_eq!(host.os, "linux");
}

#[test]
fn the_table_shows_what_is_known_of_each_interface() {
    let empty = HostInfo {
        hostname: "h".into(),
        os: "o".into(),
        interfaces: vec![],
    };
    assert_eq!(
        format_nic_table("主控", &empty),
        "主控 h (o)：\n  (未发现匹配的网卡，请检查网线/WiFi连接 和 ipv4_prefixes 配置)\n"
    );
    let host = HostInfo {
        hostname: "h".into(),
        os: "o".into(),
        interfaces: vec![NicInfo {
            name: "以太网 6".into(),
            role: "SGMII2.5G".into(),
            ipv4: "192.168.0.101".into(),
            gateway_v4: "192.168.0.1".into(),
            ipv6_ll: "fe80::1".into(),
            speed_mbps: 2500,
            wifi_band: "5GHz".into(),
            ..Default::default()
        }],
    };
    let row = format!(
        "主控 h (o)：\n  [{}] {:<10} {:<16} {:<16} {}\n",
        1, "SGMII2.5G", "以太网 6", "192.168.0.101", "2500Mbps | 5GHz | gw:192.168.0.1 | v6:fe80::1"
    );
    assert_eq!(format_nic_table("主控", &host), row);
}

#[test]
fn an_interface_in_short() {
    let mut nic = named("eth0", "SGMII1G");
    nic.ipv4 = "10.0.0.1".into();
    assert_eq!(nic.brief(), "eth0(10.0.0.1)");
    nic.speed_mbps = 1000;
    nic.wifi_band = "5GHz".into();
    assert_eq!(nic.brief(), "eth0(10.0.0.1, 1000Mbps, 5GHz)");
}

// ---------------------------------------------------------------------------
// Counters
// ---------------------------------------------------------------------------

const NETSTAT: &str = r#"Name       Mtu   Network       Address            Ipkts Ierrs     Ibytes    Opkts Oerrs     Obytes  Coll
lo0        16384 <Link#1>                         269362     0   88650008   269362     0   88650008     0
lo0        16384 127           127.0.0.1          269362     -   88650008   269362     -   88650008     -
en0        1500  <Link#14>   aa:bb:cc:dd:ee:ff   9219567     0 9083840014  5296269     0  749169011     0
en0        1500  192.168.8     192.168.8.100     9219567     - 9083840014  5296269     -  749169011     -
"#;

#[test]
fn test_parse_netstat() {
    assert_eq!(parse_netstat_ib(NETSTAT, "en0").unwrap(), 9083840014);
    assert_eq!(parse_netstat_ib(NETSTAT, "lo0").unwrap(), 88650008);
    assert_eq!(
        parse_netstat_counters(NETSTAT, "en0").unwrap(),
        (9083840014, 749169011)
    );
    assert_eq!(
        parse_netstat_counters(NETSTAT, "lo0").unwrap(),
        (88650008, 88650008)
    );
    assert!(parse_netstat_ib(NETSTAT, "en9").is_err());
}

#[test]
fn netstat_faults_are_named() {
    assert_eq!(
        parse_netstat_counters("", "en0"),
        Err("netstat 输出中找不到接口 en0".to_string())
    );
    let rx = "en0 1500 <Link#1> a 1 0 x 1 0 2 0";
    assert_eq!(
        parse_netstat_counters(rx, "en0"),
        Err(format!("解析 Ibytes 失败: {rx}"))
    );
    let tx = "en0 1500 <Link#1> a 1 0 7 1 0 -2 0";
    assert_eq!(
        parse_netstat_counters(tx, "en0"),
        Err(format!("解析 Obytes 失败: {tx}"))
    );
}

#[test]
fn counter_files_are_read() {
    assert_eq!(counter_in_file("eth0", "rx_bytes", Ok("42\n".into())), Ok(42));
    assert_eq!(
        counter_in_file("eth0", "rx_bytes", Err("gone".into())),
        Err("读取 eth0 rx_bytes 失败: gone".to_string())
    );
    let fault = "x".parse::<u64>().unwrap_err();
    assert_eq!(
        counter_in_file("eth0", "tx_bytes", Ok("x".into())),
        Err(format!("解析 eth0 tx_bytes 失败: {fault}"))
    );
    let empty = "".parse::<u64>().unwrap_err();
    assert_eq!(
        counter_in_file("eth0", "tx_bytes", Ok(" \n".into())),
        Err(format!("解析 eth0 tx_bytes 失败: {empty}"))
    );
}

#[test]
fn a_reader_is_a_function_of_the_name() {
    let reader = FnNicCounterReader::new(|iface: &str| {
        if iface == "eth0" {
            Ok((7, 9))
        } else {
            Err("unknown".to_string())
        }
    });
    assert_eq!(reader.read_counters("eth0"), Ok((7, 9)));
    assert_eq!(read_rx_bytes(&reader, "eth0"), Ok(7));
    assert_eq!(read_rx_bytes(&reader, "eth1"), Err("unknown".to_string()));
}

const SECOND: u64 = 1_000_000_000;

#[test]
fn stopped_monitor_records_exactly_one_final_partial_sample() {
    let t0 = 10 * SECOND;
    let mut stop = StopSignal::new();
    let stopped_at = stop.request_stop(t0 + SECOND / 4);
    assert_eq!(stop.request_stop(t0 + SECOND), stopped_at, "the first request counts");
    let mut sampling = Sampling::new(1_000, 2_000, t0);
    let observed_at = stopped_at + SECOND / 100;
    let last = sampling.observe(
        Ok((1_250, 2_500)),
        observed_at,
        stop.requested_at,
        stop.requested_at,
        stop.requested_at,
    );

    assert!(last, "no second reading follows");
    assert_eq!(sampling.samples.len(), 1);
    assert!(sampling.samples[0].valid);
    assert_eq!(
        sampling.samples[0].elapsed_ms,
        millis_u64(stopped_at - t0),
        "the final sample stands for the time of the request"
    );
    assert_eq!(sampling.samples[0].rx_delta_bytes, 250);
    assert_eq!(sampling.samples[0].tx_delta_bytes, 500);
    assert!(sampling.samples[0].interval_ms >= 200);
    assert!(sampling.samples[0].interval_ms < 1_000);
    assert!(sampling.errors.is_empty());
}

#[test]
fn a_stop_after_the_reading_is_served_by_one_more() {
    let mut sampling = Sampling::new(0, 0, 0);
    assert!(!sampling.observe(Ok((10, 10)), SECOND, None, None, Some(SECOND + 1)));
    assert!(sampling.observe(
        Ok((15, 10)),
        SECOND + 5,
        Some(SECOND + 1),
        Some(SECOND + 1),
        Some(SECOND + 1)
    ));
    let deltas: Vec<u64> = sampling.samples.iter().map(|s| s.rx_delta_bytes).collect();
    assert_eq!(deltas, vec![10, 5]);
}

#[test]
fn recovery_sample_uses_last_successful_counter_and_time() {
    let t0 = 5 * SECOND;
    let mut state = CounterState {
        rx: 1_000_000,
        tx: 2_000_000,
        baseline_at: t0,
        attempted_at: t0,
    };

    let (failed, error) = record_counter_result(
        Err("temporary read error".to_string()),
        t0 + SECOND,
        t0,
        &mut state,
    );
    assert!(!failed.valid);
    assert_eq!(failed.interval_ms, 1_000);
    assert_eq!(error.as_deref(), Some("temporary read error"));
    assert_eq!(state.rx, 1_000_000);
    assert_eq!(state.tx, 2_000_000);
    assert_eq!(state.baseline_at, t0);
    assert_eq!(state.attempted_at, t0 + SECOND);

    let (recovered, error) =
        record_counter_result(Ok((1_200_000, 2_100_000)), t0 + 2 * SECOND, t0, &mut state);
    assert!(error.is_none());
    assert!(recovered.valid);
    assert_eq!(recovered.interval_ms, 2_000);
    assert_eq!(recovered.rx_delta_bytes, 200_000);
    assert_eq!(recovered.tx_delta_bytes, 100_000);
    let secs = recovered.rate_nanos as f64 / 1e9;
    let rx_mbps = recovered.rx_delta_bytes as f64 * 8.0 / secs / 1_000_000.0;
    let tx_mbps = recovered.tx_delta_bytes as f64 * 8.0 / secs / 1_000_000.0;
    assert!((rx_mbps - 0.8).abs() < 1e-12);
    assert!((tx_mbps - 0.4).abs() < 1e-12);
}

#[test]
fn a_counter_that_goes_back_starts_anew() {
    let mut state = CounterState {
        rx: 100,
        tx: 200,
        baseline_at: 0,
        attempted_at: 0,
    };
    let (sample, error) = record_counter_result(Ok((5, 300)), SECOND, 0, &mut state);
    assert!(!sample.valid);
    assert_eq!((sample.rx_delta_bytes, sample.tx_delta_bytes), (0, 0));
    assert_eq!((sample.rx_bytes, sample.tx_bytes), (5, 300));
    let text = "接口计数器回退/reset: RX 100->5, TX 200->300";
    assert_eq!(sample.error, text);
    assert_eq!(error.as_deref(), Some(text));
    let (next, error) = record_counter_result(Ok((7, 301)), 2 * SECOND, 0, &mut state);
    assert!(next.valid && error.is_none());
    assert_eq!((next.rx_delta_bytes, next.tx_delta_bytes), (2, 1));
    assert_eq!(next.interval_ms, 1_000);
}

#[test]
fn the_bytes_of_the_samples_add_up() {
    let mut sampling = Sampling::new(100, 50, 0);
    let readings: [Result<(u64, u64), String>; 5] = [
        Ok((150, 60)),
        Err("a".into()),
        Err("b".into()),
        Ok((400, 61)),
        Ok((401, 90)),
    ];
    for (i, reading) in readings.into_iter().enumerate() {
        sampling.observe(reading, (i as u64 + 1) * SECOND, None, None, None);
    }
    let rx: u64 = sampling.samples.iter().filter(|s| s.valid).map(|s| s.rx_delta_bytes).sum();
    let tx: u64 = sampling.samples.iter().filter(|s| s.valid).map(|s| s.tx_delta_bytes).sum();
    let nanos: u64 = sampling.samples.iter().filter(|s| s.valid).map(|s| s.rate_nanos).sum();
    assert_eq!((100 + rx, 50 + tx), (401, 90));
    assert_eq!(nanos, 5 * SECOND);
    assert_eq!(sampling.errors, vec!["a", "b"]);
}

// ---------------------------------------------------------------------------
// The registry
// ---------------------------------------------------------------------------

const NOW: u64 = 1_000 * SECOND;

fn fake_entry(owner_id: &str, lease_secs: u64, age_secs: u64) -> MonEntry {
    let t0 = NOW - age_secs * SECOND;
    let mut sampling = Sampling::new(1_000, 2_000, t0);
    sampling.samples.push(MonitorSample {
        elapsed_ms: age_secs * 1_000,
        interval_ms: (age_secs * 1_000).max(1),
        rx_bytes: 1_100,
        tx_bytes: 2_200,
        rx_delta_bytes: 100,
        tx_delta_bytes: 200,
        rate_nanos: age_secs * SECOND,
        valid: true,
        error: String::new(),
    });
    MonEntry {
        iface: "fake0".into(),
        owner_id: owner_id.into(),
        lease_secs,
        start_rx: 1_000,
        start_tx: 2_000,
        interval_ms: 1_000,
        stop: StopSignal::new(),
        panicked: false,
        sampling,
    }
}

#[test]
fn stop_owner_stops_only_matching_entries_and_returns_each_result() {
    let reader = FnNicCounterReader::new(|_: &str| Err("not read".to_string()));
    let mut mgr = MonitorMgr::new();
    mgr.insert("mon-owner-a-2".into(), fake_entry("owner-a", 60, 2));
    mgr.insert("mon-owner-b".into(), fake_entry("owner-b", 60, 2));
    mgr.insert("mon-owner-a-1".into(), fake_entry("owner-a", 60, 2));

    assert!(mgr.totals_fit());
    let stopped = mgr.stop_owner(&reader, "owner-a", NOW);
    assert_eq!(
        stopped.iter().map(|(id, _)| id.as_str()).collect::<Vec<_>>(),
        vec!["mon-owner-a-1", "mon-owner-a-2"]
    );
    assert!(stopped.iter().all(|(_, result)| result.is_ok()));

    assert_eq!(mgr.len(), 1);
    assert!(mgr.contains("mon-owner-b"));
}

#[test]
fn sweep_uses_entry_lease_and_legacy_fallback_independently() {
    let mut mgr = MonitorMgr::new();
    mgr.insert("dynamic-expired".into(), fake_entry("dynamic", 1, 2));
    mgr.insert("dynamic-live".into(), fake_entry("dynamic", 60, 2));
    mgr.insert("legacy-live".into(), fake_entry("", 0, 2));
    mgr.insert("legacy-expired".into(), fake_entry("", 0, 20));

    let mut gone = mgr.sweep(NOW, 10 * SECOND);
    gone.sort();
    assert_eq!(gone, vec!["dynamic-expired", "legacy-expired"]);

    assert!(!mgr.contains("dynamic-expired"));
    assert!(mgr.contains("dynamic-live"));
    assert!(mgr.contains("legacy-live"));
    assert!(!mgr.contains("legacy-expired"));
}

#[test]
fn monitor_rejects_unrepresentable_dynamic_lease_before_touching_interface() {
    let mut mgr = MonitorMgr::new();
    let error = mgr
        .start_owned(
            "interface-must-not-be-read",
            1_000,
            "owner",
            u64::MAX,
            false,
            Err("must not be read".into()),
            NOW,
        )
        .unwrap_err();
    assert!(error.contains("lease_secs"));
    assert!(error.contains("过大"));
    assert_eq!(mgr.len(), 0);
}

#[test]
fn status_returns_latest_sample_without_stopping_monitor() {
    let mut mgr = MonitorMgr::new();
    mgr.insert("mon-live".into(), fake_entry("owner-live", 60, 2));

    let status = mgr.status("mon-live").unwrap();
    assert_eq!(status.id, "mon-live");
    assert_eq!(status.iface, "fake0");
    assert_eq!(status.sample_count, 1);
    let latest = status.latest_sample.unwrap();
    assert!(latest.valid);
    assert_eq!(latest.rx_delta_bytes, 100);
    assert_eq!(latest.tx_delta_bytes, 200);
    assert!(mgr.contains("mon-live"));

    assert!(mgr.status("missing-monitor").is_err());
}

#[test]
fn monitors_start_run_and_stop() {
    let reader = FnNicCounterReader::new(|_: &str| Ok((5_000, 100)));
    let mut mgr = MonitorMgr::new();
    let first = mgr.start("eth0", 1, Ok((1_000, 200)), NOW).unwrap();
    let second = mgr
        .start_owned("eth1", 60_000, "me", 30, true, Ok((0, 0)), NOW)
        .unwrap();
    assert_eq!((first.as_str(), second.as_str()), ("mon1", "mon2"));
    assert_eq!(mgr.start("eth2", 1, Err("no such".into()), NOW), Err("no such".to_string()));

    // Without samples the counters are read once more, and one that went back counts as unchanged.
    let out = mgr.stop(&reader, "mon1", NOW + SECOND).unwrap();
    assert_eq!((out.bytes, out.tx_bytes, out.nanos), (4_000, 0, SECOND));
    assert_eq!(
        mgr.stop(&reader, "mon1", NOW).unwrap_err(),
        "监控 ID 不存在: mon1"
    );

    // A request to stop fixes the time of the report, and the final sample settles the bytes.
    assert_eq!(mgr.request_stop("mon2", NOW + 2 * SECOND), Some(NOW + 2 * SECOND));
    assert_eq!(mgr.request_stop("mon2", NOW + 9 * SECOND), Some(NOW + 2 * SECOND));
    let asked = Some(NOW + 2 * SECOND);
    assert!(mgr.observe("mon2", Ok((10, 20)), NOW + 3 * SECOND, asked, asked));
    mgr.mark_panicked("mon2");
    let out = mgr.stop(&reader, "mon2", NOW + 9 * SECOND).unwrap();
    assert_eq!((out.bytes, out.tx_bytes, out.nanos), (10, 20, 2 * SECOND));
    assert_eq!(out.errors, vec!["eth1 采样线程异常退出"]);
    assert!(mgr.observe("mon2", Ok((0, 0)), NOW, None, None));
    assert_eq!(mgr.request_stop("mon2", NOW), None);
}

#[test]
fn a_monitor_without_samples_whose_counters_cannot_be_read_says_so() {
    let reader = FnNicCounterReader::new(|_: &str| Err("gone".to_string()));
    let mut mgr = MonitorMgr::new();
    let id = mgr.start("eth0", 1, Ok((1, 1)), NOW).unwrap();
    let out = mgr.stop(&reader, &id, NOW).unwrap();
    assert_eq!((out.bytes, out.tx_bytes, out.nanos), (0, 0, 1_000_000));
    assert_eq!(out.errors, vec!["eth0 停止时无法读取计数器: gone"]);
}

#[test]
fn a_report_on_a_watched_interface() {
    let opts = ContinuousOpts {
        iface: "eth0",
        interval_secs: 2,
        duration_secs: 10,
        csv_path: None,
    };
    assert!(opts.goes_on(9, false));
    assert!(!opts.goes_on(10, false));
    assert!(!opts.goes_on(1, true));
    let records = vec![
        RateLine { time: "10:00:00".into(), speed: "1.50".into() },
        RateLine { time: "10:00:02".into(), speed: "2.50".into() },
    ];
    assert_eq!(
        csv_with_header("eth0", 2, 4, "2.00", "2.50", &records),
        "\u{FEFF}# === CPE NIC Monitor Report ===\n# Interface,eth0\n# Interval,2s\n# Duration,4s\n\
         # Average (Mbps),2.00\n# Peak (Mbps),2.50\n# ================================\n\
         Time,Speed(Mbps)\n10:00:00,1.50\n10:00:02,2.50\n"
    );
}

// ---------------------------------------------------------------------------
// Linux
// ---------------------------------------------------------------------------

const ADDR4: &str = r#"[
  {"ifindex":1,"ifname":"lo","flags":["LOOPBACK","UP","LOWER_UP"],"operstate":"UNKNOWN","addr_info":[{"family":"inet","local":"127.0.0.1","prefixlen":8,"scope":"host"}]},
  {"ifindex":2,"ifname":"enp2s0","flags":["BROADCAST","MULTICAST","UP","LOWER_UP"],"operstate":"UP","addr_info":[{"family":"inet","local":"192.168.8.101","prefixlen":24,"scope":"global"}]},
  {"ifindex":3,"ifname":"wlp3s0","flags":["BROADCAST","MULTICAST"],"operstate":"DOWN","addr_info":[]},
  {"ifindex":6,"ifname":"docker0","flags":["BROADCAST","MULTICAST","UP","LOWER_UP"],"operstate":"UP","addr_info":[{"family":"inet","local":"172.17.0.1","prefixlen":16,"scope":"global"}]}
]"#;

const ADDR6: &str = r#"[
  {"ifindex":2,"ifname":"enp2s0","flags":["BROADCAST","MULTICAST","UP","LOWER_UP"],"operstate":"UP","addr_info":[
    {"family":"inet6","local":"fe80::8f99:ff69:dc91:d879","prefixlen":64,"scope":"link"},
    {"family":"inet6","local":"2408:843e:ca0:5c91::3","prefixlen":128,"scope":"global"}
  ]}
]"#;

const ROUTES: &str = r#"[
  {"dst":"default","gateway":"192.168.8.1","dev":"enp2s0","protocol":"dhcp","prefsrc":"192.168.8.101","metric":100},
  {"dst":"192.168.8.0/24","dev":"enp2s0","protocol":"kernel","scope":"link","prefsrc":"192.168.8.101"},
  {"dst":"172.17.0.0/16","dev":"docker0","protocol":"kernel","scope":"link","prefsrc":"172.17.0.1"}
]"#;

fn block<'a>(blocks: &'a [IfBlock], name: &str) -> &'a IfBlock {
    blocks.iter().find(|b| b.name == name).unwrap()
}

#[test]
fn test_parse_addr_v4() {
    let m = parse_addr_json(ADDR4, false);
    assert_eq!(m.len(), 4);
    let e = block(&m, "enp2s0");
    assert_eq!(e.ipv4.as_deref(), Some("192.168.8.101"));
    assert!(e.flags.iter().any(|f| f == "UP"));
    assert_eq!(e.operstate, "UP");
    assert_eq!(block(&m, "wlp3s0").operstate, "DOWN");
    assert!(block(&m, "wlp3s0").ipv4.is_none());
    assert_eq!(block(&m, "docker0").ipv4.as_deref(), Some("172.17.0.1"));
}

#[test]
fn test_parse_addr_v6() {
    let m = parse_addr_json(ADDR6, true);
    let e = block(&m, "enp2s0");
    assert_eq!(e.ipv6_ll.as_deref(), Some("fe80::8f99:ff69:dc91:d879"));
    assert_eq!(e.ipv6_global.as_deref(), Some("2408:843e:ca0:5c91::3"));
}

#[test]
fn test_parse_gateway() {
    let g = parse_gateway_v4(ROUTES);
    assert_eq!(find_gateway(&g, "enp2s0"), "192.168.8.1");
    assert!(!g.iter().any(|route| route.dev == "docker0"));
}

#[test]
fn test_parse_bad_json_is_empty() {
    assert!(parse_addr_json("not json", false).is_empty());
    assert!(parse_gateway_v4("").is_empty());
}

#[test]
fn an_interface_that_is_listed_twice_has_one_block() {
    let text = r#"[
        {"ifname":"eth0","flags":["UP"],"addr_info":[{"local":"10.0.0.1"},{"local":"10.0.0.2"}]},
        {"flags":["UP"]},
        {"ifname":"eth0","flags":["UP","RUNNING",7],"operstate":"UP","addr_info":[{"local":"10.0.0.3"}]}
    ]"#;
    let m = parse_addr_json(text, false);
    assert_eq!(m.len(), 1);
    assert_eq!(m[0].flags, vec!["UP", "RUNNING"]);
    assert_eq!(m[0].operstate, "UP");
    assert_eq!(m[0].ipv4.as_deref(), Some("10.0.0.1"));
}

#[test]
fn a_linux_host_is_scanned() {
    let probes = vec![LinkProbe {
        name: "enp2s0".into(),
        is_wifi: false,
        speed_file: Some("2500\n".into()),
        iw_output: None,
    }];
    let found = scan_linux::scan_all(&strings(&["192.168."]), ADDR4, ADDR6, ROUTES, &probes);
    assert_eq!(found.len(), 1);
    let nic = &found[0];
    assert_eq!(nic.name, "enp2s0");
    assert_eq!(nic.role, "SGMII2.5G");
    assert_eq!(nic.description, "ethernet");
    assert_eq!(nic.ipv4, "192.168.8.101");
    assert_eq!(nic.gateway_v4, "192.168.8.1");
    assert_eq!(nic.ipv6_ll, "fe80::8f99:ff69:dc91:d879");
    assert_eq!(nic.ipv6_global, "2408:843e:ca0:5c91::3");
    assert_eq!(nic.zone, "enp2s0");
    assert_eq!((nic.speed_mbps, nic.is_wifi, nic.ifindex), (2500, false, 0));
    let all = scan_linux::scan_all(&strings(&[]), ADDR4, ADDR6, ROUTES, &probes);
    let names: Vec<&str> = all.iter().map(|n| n.name.as_str()).collect();
    assert_eq!(names, vec!["enp2s0", "docker0"]);
}

#[test]
fn speeds_and_bands_of_linux_links() {
    assert_eq!(read_speed(&Some(" 1000\n".into())), 1000);
    assert_eq!(read_speed(&Some("-1\n".into())), 0);
    assert_eq!(read_speed(&Some("fast".into())), 0);
    assert_eq!(read_speed(&None), 0);
    let info = |line: &str| Some(format!("Interface wlan0\n\t{line}\n\ttype managed\n"));
    assert_eq!(wifi_band(&info("channel 36 (5180 MHz), width: 80 MHz")), "5GHz");
    assert_eq!(wifi_band(&info("channel 1 (2412 MHz)")), "2.4GHz");
    assert_eq!(wifi_band(&info("channel 5 (6000 MHz)")), "6GHz");
    assert_eq!(wifi_band(&info("ssid x")), "");
    assert_eq!(wifi_band(&None), "");
}

// ---------------------------------------------------------------------------
// macOS
// ---------------------------------------------------------------------------

const SAMPLE: &str = r#"lo0: flags=8049<UP,LOOPBACK,RUNNING,MULTICAST> mtu 16384
	inet 127.0.0.1 netmask 0xff000000
	inet6 ::1 prefixlen 128
en0: flags=8863<UP,BROADCAST,SMART,RUNNING,SIMPLEX,MULTICAST> mtu 1500
	inet6 fe80::1c2e:aabb:ccdd:eeff%en0 prefixlen 64 secured scopeid 0xe
	inet 192.168.8.100 netmask 0xffffff00 broadcast 192.168.8.255
	inet6 2408:8207:aabb:ccdd::1 prefixlen 64 autoconf secured
	status: active
en5: flags=8863<UP,BROADCAST,SMART,RUNNING,SIMPLEX,MULTICAST> mtu 1500
	inet 192.168.1.50 netmask 0xffffff00 broadcast 192.168.1.255
	status: inactive
"#;

#[test]
fn test_parse_ifconfig() {
    let v = parse_ifconfig(SAMPLE);
    assert_eq!(v.len(), 3);
    assert_eq!(v[1].name, "en0");
    assert_eq!(v[1].ipv4.as_deref(), Some("192.168.8.100"));
    assert_eq!(v[1].ipv6_ll.as_deref(), Some("fe80::1c2e:aabb:ccdd:eeff"));
    assert_eq!(v[1].ipv6_global.as_deref(), Some("2408:8207:aabb:ccdd::1"));
    assert!(!v[1].inactive);
    assert!(v[2].inactive);
}

#[test]
fn test_parse_route_gateway_v4() {
    let route = r#"   route to: default
destination: default
       mask: default
    gateway: 192.168.8.1
  interface: en0
"#;
    assert_eq!(parse_route_gateway_v4(route), "192.168.8.1");
    assert!(parse_route_gateway_v4("gateway: 0.0.0.0\n").is_empty());
    assert!(parse_route_gateway_v4("gateway: fe80::1%en0\n").is_empty());
    assert!(parse_route_gateway_v4("route: not in table\n").is_empty());
}

#[test]
fn speeds_are_probed_up_to_three_times() {
    let media = "media: autoselect (1000baseT <full-duplex>)\n\tsupported (2500Base-T) (10Gbase-T)";
    assert_eq!(probe_speed(media, 0), (10_000, false));
    assert_eq!(probe_speed("media: autoselect (none)", 0), (0, true));
    assert_eq!(probe_speed("media: autoselect (none)", 2), (0, false));
}

#[test]
fn the_network_in_use_tells_band_and_rate() {
    let text = "Channel: 6 (6GHz)\nCurrent Network Information:\n  Channel: 36 (5GHz, 80MHz)\n  \
                Transmit Rate: 866\n  Other Local Wi-Fi Networks:\n  Channel: 1 (2.4GHz)\n";
    assert_eq!(airport_info(text), ("5GHz".to_string(), Some("866".to_string())));
    assert_eq!(airport_info("Channel: 1 (2.4GHz)"), (String::new(), None));
}

#[test]
fn a_macos_host_is_scanned() {
    let hardware = "Hardware Port: Wi-Fi\nDevice: en0\n\nHardware Port: USB 10/100/1000 LAN\nDevice: en5\n";
    let ports = hardware_ports(hardware);
    assert_eq!(ports.len(), 2);
    let probes = vec![Probe {
        name: "en0".into(),
        speed_mbps: 7,
        route_output: Some("gateway: 192.168.8.1\n".into()),
    }];
    let found = scan_macos::scan_all(&strings(&[]), SAMPLE, hardware, "5GHz", 866, &probes);
    assert_eq!(found.len(), 1);
    let nic = &found[0];
    assert_eq!((nic.name.as_str(), nic.description.as_str()), ("en0", "Wi-Fi"));
    assert_eq!((nic.role.as_str(), nic.speed_mbps), ("WIFI5G", 866));
    assert_eq!(nic.gateway_v4, "192.168.8.1");
    assert_eq!(nic.ipv6_ll, "fe80::1c2e:aabb:ccdd:eeff");
    assert!(scan_macos::wants_airport(&parse_ifconfig(SAMPLE), &ports, &strings(&[])));
    assert!(!scan_macos::wants_airport(&parse_ifconfig(SAMPLE), &ports, &strings(&["10."])));
}

// ---------------------------------------------------------------------------
// Windows
// ---------------------------------------------------------------------------

fn route(ifindex: u32, metric: u32, destination: [u8; 4], gateway: [u8; 4]) -> Route {
    Route {
        ifindex,
        metric,
        destination: u32::from_be_bytes(destination),
        gateway: u32::from_be_bytes(gateway),
    }
}

#[test]
fn selects_lowest_metric_default_gateway_per_interface() {
    let routes = vec![
        route(7, 50, [0, 0, 0, 0], [192, 168, 1, 1]),
        route(7, 10, [0, 0, 0, 0], [192, 168, 1, 254]),
        route(9, 5, [10, 0, 0, 0], [10, 0, 0, 1]),
        route(11, 1, [0, 0, 0, 0], [0, 0, 0, 0]),
    ];
    let gateways = select_default_gateways_v4(&routes);

    assert_eq!(find_default_gateway(&gateways, 7).as_deref(), Some("192.168.1.254"));
    assert!(find_default_gateway(&gateways, 9).is_none());
    assert!(find_default_gateway(&gateways, 11).is_none());

    let rows: Vec<ForwardRow> = routes
        .iter()
        .map(|route| ForwardRow {
            prefix_length: if route.metric == 10 { 24 } else { 0 },
            route: *route,
        })
        .collect();
    let gateways = default_gateways_v4(&rows);
    assert_eq!(find_default_gateway(&gateways, 7).as_deref(), Some("192.168.1.1"));
}

fn units(text: &str) -> Vec<u16> {
    let mut all: Vec<u16> = text.encode_utf16().collect();
    all.extend([0, 65, 66]);
    all
}

#[test]
fn rows_of_the_interface_table_are_read() {
    assert_eq!(u16z(&units("以太网 6")), "以太网 6");
    assert_eq!(u16z(&"ab".encode_utf16().collect()), "ab");
    assert_eq!(u16z(&vec![0xd800]), "\u{fffd}");
    let raw = |speed: u64| RawRow {
        alias: units("WLAN"),
        desc: units("Intel"),
        ifindex: 3,
        if_type: 71,
        receive_speed: speed,
        transmit_speed: 5_000_000,
        in_octets: 10,
        out_octets: 20,
    };
    let rows = if_rows(&vec![raw(866_700_000), raw(u64::MAX)]);
    assert_eq!((rows[0].alias.as_str(), rows[0].desc.as_str()), ("WLAN", "Intel"));
    assert_eq!((rows[0].speed_mbps, rows[0].is_wifi), (866, true));
    assert_eq!(rows[1].speed_mbps, 0);
}

fn row(alias: &str, bytes: u64) -> IfRow {
    IfRow {
        alias: alias.into(),
        desc: "Realtek 2.5GbE".into(),
        ifindex: 7,
        speed_mbps: 2500,
        is_wifi: false,
        in_octets: bytes,
        out_octets: bytes + 1,
    }
}

#[test]
fn counters_are_found_by_exact_name_first() {
    let rows = vec![row("LAN", 1), row("lan", 5)];
    assert_eq!(counters(&rows, "lan"), Ok((5, 6)));
    assert_eq!(counters(&rows, "Lan"), Ok((1, 2)));
    assert_eq!(counters(&rows, "wan"), Err("接口不存在: wan".to_string()));
}

#[test]
fn a_windows_host_is_scanned() {
    let adapter = |name: &str, ipv4: &str| Adapter {
        name: name.into(),
        ipv4: Some(ipv4.into()),
        ..Default::default()
    };
    let mut gone = adapter("LAN 2", "192.168.1.9");
    gone.disconnected = true;
    let adapters = vec![adapter("LAN", "192.168.1.5"), gone, adapter("WLAN", "192.168.1.6")];
    let gateways = select_default_gateways_v4(&vec![route(7, 1, [0; 4], [192, 168, 1, 1])]);
    let rows = vec![row("lan", 1)];
    let wlans = vec![Wlan { name: "WLAN".into(), connected: true, band: "5GHz".into() }];
    let found = scan_windows::scan_all(&strings(&["192."]), &adapters, &rows, &gateways, &wlans);
    assert_eq!(found.len(), 2);
    assert_eq!((found[0].name.as_str(), found[0].role.as_str()), ("LAN", "SGMII2.5G"));
    assert_eq!((found[0].gateway_v4.as_str(), found[0].zone.as_str()), ("192.168.1.1", "7"));
    assert_eq!((found[1].role.as_str(), found[1].zone.as_str()), ("WIFI5G", "0"));
    let down = vec![Wlan { name: "WLAN".into(), connected: false, band: "5GHz".into() }];
    let found = scan_windows::scan_all(&strings(&["192."]), &adapters, &rows, &gateways, &down);
    assert_eq!(found.len(), 1);
}

#[test]
fn names_in_small_letters_tell_roles() {
    assert!(!sounds_wifi("以太网", "以太网"));
    assert!(sounds_wifi("无线网络连接", "无线网络连接"));
    assert!(sounds_wifi("网络 WLAN", "网络 wlan"));
    assert!(!sounds_wifi("网络 WLAN", "网络 WLAN"));
    assert!(is_wifi_name("网络 WLAN"));
    assert_eq!(role_from("以太网 10g usb", 0, false, ""), "10GUSB");
    assert_eq!(role_from("以太网 10G USB", 0, false, ""), "UNKNOWN");
    assert_eq!(classify_role("以太网 10G USB", 0, false, ""), "10GUSB");
    assert_eq!(role_from("远程 remote ndis", 100, false, ""), "RNDIS");
}

#[test]
fn plain_addresses_are_sorted() {
    let mut block = IfBlock::fresh("eth0");
    block.add_plain_address("fe80::1".into(), true);
    block.add_plain_address("fe80::2".into(), true);
    block.add_plain_address("fd00::1".into(), true);
    block.add_plain_address("2001:db8::1".into(), true);
    block.add_plain_address("10.0.0.1".into(), false);
    assert_eq!(block.ipv6_ll.as_deref(), Some("fe80::1"));
    assert_eq!(block.ipv6_global.as_deref(), Some("2001:db8::1"));
    assert_eq!(block.ipv4.as_deref(), Some("10.0.0.1"));

    let mut block = Block {
        name: "en0".into(),
        ipv4: None,
        ipv6_ll: None,
        ipv6_global: None,
        inactive: false,
    };
    block.add_ipv6("fe80::1%en0");
    block.add_ipv6("3ffe::1");
    block.add_ipv6("2001:db8::1");
    assert_eq!(block.ipv6_ll.as_deref(), Some("fe80::1"));
    assert_eq!(block.ipv6_global.as_deref(), Some("3ffe::1"));
}

#[test]
fn only_default_routes_give_gateways() {
    let text = |s: &str| Some(s.to_string());
    let found = gateway_from(text("default"), text("10.0.0.1"), text("eth0")).unwrap();
    assert_eq!((found.dev.as_str(), found.gateway.as_str()), ("eth0", "10.0.0.1"));
    assert!(gateway_from(text("10.0.0.0/8"), text("10.0.0.1"), text("eth0")).is_none());
    assert!(gateway_from(text("default"), None, text("eth0")).is_none());
}

#[test]
fn interfaces_that_nothing_tells_apart_keep_their_order() {
    let found: Vec<NicInfo> = [("b", "1"), ("a", "2"), ("b", "3"), ("b", "4")]
        .iter()
        .map(|(name, ipv4)| NicInfo {
            ipv4: ipv4.to_string(),
            ..named(name, "SGMII1G")
        })
        .collect();
    let host = scan_host("bench".into(), "linux".into(), found);
    let order: Vec<&str> = host.interfaces.iter().map(|nic| nic.ipv4.as_str()).collect();
    assert_eq!(order, vec!["2", "1", "3", "4"]);
}
