use cpe_bench::baseline::{baseline_of, with_baseline, Json, JsonField};
use cpe_bench::compile::{
    self, plan_out, ui_source_from_spec, BuiltTest, Build, CompiledPlan,
};
use cpe_bench::config::{
    Config, IperfCfg, LinkProfiles, OneOrMany, PingCfg, RateCheckCfg, RateMode, RateTargets,
    TestSpec, TotalTarget, UdpProfile, UiOrigin,
};
use cpe_bench::console::{
    admit_report, admit_stop, apply_connect, bootstrap_out, configured_nic_policies,
    finish_connect, import_config, progress_query, report_shown, unreachable_text, ConnectReq,
    ImportOut,
};
use cpe_bench::http::{
    bind_is_loopback, bind_is_wildcard, bundle_disposition, cookie_token, display_addr,
    listen_addr, page_cookie, page_request_is_authorized, refusal_of, request_is_authorized,
    resolve_run_dir, route, secret_eq, should_shut_down, Api, ConsoleRequest, HeaderLine, Method,
    Route,
};
use cpe_bench::import::{
    canonical_endpoint, find_host, push_known, read_host, udp_group_from_profiles, PairImport,
};
use cpe_bench::model::{
    NicPolicySelection, PairSelection, RunRequest, TcpGroup, UdpGroup, UiBinding, UiLinkSet,
    UiPairRef, UiPlan, UiRecipe, UiRecipeProfile, UiRecipes, UiState, UiSuite, UiTask, UiU32Values,
    WifiBandThreshold, WifiPairThreshold,
};
use cpe_bench::number::Double;
use cpe_bench::ping::MAX_PAYLOAD;
use cpe_bench::protocol::{accept_reply, err_json, ok_json, HostInfo, NicInfo, Resp};
use cpe_bench::readings::{Bandwidth, Endpoint, Reading, Readings, Side};
use cpe_bench::runs::{bundle_entry, dir_size, newest_first, RunEntry};
use cpe_bench::sessions::{
    admit_monitor, monitor_interval_ms, poll_monitors, reap_dead_monitors, rise, start_monitor,
    stop_all_monitors, stop_monitor, MonitorCursor, MonitorData, MonitorPoint, MonitorSession,
    MonitorStartUiReq, SessionIds, MONITOR_IDLE_NANOS, MONITOR_MAX_POINTS, MONITOR_MAX_SESSIONS,
};
use cpe_bench::suite::recipe_udp_profiles;
use cpe_bench::suite_plan;
use cpe_bench::sweep::distinct as distinct_texts;
use cpe_bench::units::{
    readable_args, unit_load_lines, IperfTask, Leg, LegKind, PingTask, Unit,
};
use cpe_bench::url::{urldecode, urlencode};
use cpe_bench::validate::{self, cleaned_list, RxTarget};
use cpe_bench::validate_plan;
use cpe_bench::wifi::canonical_wifi_band;

// ---------------------------------------------------------------------------
// Readers
// ---------------------------------------------------------------------------

fn double(value: f64) -> Double {
    Double {
        bits: value.to_bits(),
    }
}

fn mbps(value: f64) -> Option<Double> {
    Some(double(value))
}

fn number_and_unit(text: &str) -> Option<(f64, String)> {
    let text = text.trim();
    let end = text
        .find(|c: char| !(c.is_ascii_digit() || c == '.'))
        .unwrap_or(text.len());
    let number: f64 = text[..end].parse().ok()?;
    Some((number, text[end..].trim().to_lowercase()))
}

fn read_size(text: &str) -> Result<u64, String> {
    let fault = || format!("{text} 不是有效的尺寸");
    let (number, unit) = number_and_unit(text).ok_or_else(fault)?;
    let scale = match unit.as_str() {
        "" => 1.0,
        "k" => 1024.0,
        "m" => 1024.0 * 1024.0,
        "g" => 1024.0 * 1024.0 * 1024.0,
        _ => return Err(fault()),
    };
    Ok((number * scale) as u64)
}

fn read_bandwidth(text: &str) -> Result<Bandwidth, String> {
    let fault = || format!("{text} 不是有效的带宽");
    let (number, unit) = number_and_unit(text).ok_or_else(fault)?;
    let scale = match unit.as_str() {
        "" | "m" | "mbps" => 1.0,
        "k" => 0.001,
        "g" | "gbps" => 1000.0,
        _ => return Err(fault()),
    };
    let value = number * scale;
    if value <= 0.0 {
        return Err(fault());
    }
    Ok(Bandwidth {
        mbps: double(value),
        shown: format!("{value}"),
    })
}

fn read_endpoint(state: &UiState, text: &str) -> Result<Endpoint, String> {
    let (host, rest) = text.split_once(':').ok_or("缺少主机")?;
    let (side, info) = match host.trim().to_lowercase().as_str() {
        "master" => (Side::Master, &state.master),
        "agent" => (Side::Agent, &state.agent),
        other => return Err(format!("未知主机 {other}")),
    };
    let found = match rest.strip_prefix("NAME=") {
        Some(name) => info.interfaces.iter().find(|nic| nic.name == name),
        None => info.interfaces.iter().find(|nic| nic.role.eq_ignore_ascii_case(rest)),
    };
    found
        .map(|nic| Endpoint {
            side,
            nic: nic.clone(),
        })
        .ok_or_else(|| format!("找不到 {rest}"))
}

fn readings_of(state: &UiState, texts: Vec<String>) -> Readings {
    let mut rd = Readings::default();
    let mut seen = std::collections::HashSet::new();
    for text in texts {
        let plain = text.trim();
        let bare = plain.trim_end_matches('%').trim();
        for text in [text.as_str(), plain, bare] {
            if !seen.insert(text.to_string()) {
                continue;
            }
            rd.sizes.push(Reading {
                text: text.into(),
                outcome: read_size(text),
            });
            rd.bandwidths.push(Reading {
                text: text.into(),
                outcome: read_bandwidth(text),
            });
            rd.numbers.push(Reading {
                text: text.into(),
                outcome: text.parse::<f64>().map(double).map_err(|e| e.to_string()),
            });
            rd.endpoints.push(Reading {
                text: text.into(),
                outcome: read_endpoint(state, text),
            });
        }
    }
    rd
}

fn texts_of_config(cfg: &Config) -> Vec<String> {
    let mut all = cfg.iperf.tcp_windows.clone();
    let loads = cfg
        .iperf
        .udp_profiles
        .iter()
        .chain(cfg.tests.iter().filter_map(|t| t.udp_profiles.as_ref()).flatten());
    for load in loads {
        all.push(load.bandwidth.clone());
        all.extend(load.length.clone());
        all.extend(load.window.clone());
    }
    for test in &cfg.tests {
        all.push(test.src.clone());
        all.push(test.dst.clone());
    }
    for profile in &cfg.link_profiles.by_nic {
        all.push(format!("{}:NAME={}", profile.host, profile.name));
        all.extend(profile.udp_bandwidth.clone());
        all.extend(profile.udp_length.clone());
    }
    all
}

fn readings(state: &UiState, req: &RunRequest) -> Readings {
    let mut all = texts_of_config(&state.cfg);
    for pair in &req.pairs {
        all.extend([
            pair.src.clone(),
            pair.dst.clone(),
            pair.rx_target_bidir_ab.clone(),
            pair.rx_target_bidir_ba.clone(),
            pair.rx_target_bidir_total.clone(),
        ]);
    }
    for policy in &req.nic_policies {
        all.extend([
            policy.endpoint.clone(),
            policy.rx_target.clone(),
            policy.udp_bandwidth.clone(),
            policy.udp_length.clone(),
        ]);
    }
    all.extend(req.tcp_windows.clone());
    all.extend(req.udp_bandwidths.clone());
    all.extend(req.udp_lengths.clone());
    all.extend(req.udp_windows.clone());
    for group in &req.udp_groups {
        all.extend(group.bandwidths.clone());
        all.extend(group.lengths.clone());
        all.extend(group.windows.clone());
    }
    for group in &req.tcp_groups {
        all.extend(group.windows.clone());
    }
    if let Some(plan) = &req.ui_plan {
        for set in &plan.link_sets {
            for pair in &set.pair_refs {
                all.extend([pair.src.clone(), pair.dst.clone()]);
            }
        }
        for recipe in plan.recipes.tcp.iter().chain(&plan.recipes.udp) {
            for profile in &recipe.profiles {
                all.extend(profile.window.clone());
                all.extend(profile.length.clone());
                all.extend(profile.bandwidth.clone());
            }
            all.extend(recipe.tcp_windows.clone());
            all.extend(recipe.bandwidths.clone());
            all.extend(recipe.lengths.clone());
            all.extend(recipe.windows.clone());
            for load in &recipe.udp_profiles {
                all.push(load.bandwidth.clone());
                all.extend(load.length.clone());
                all.extend(load.window.clone());
            }
        }
        for task in plan.suites.iter().flat_map(|suite| &suite.tasks) {
            all.extend([
                task.rx_target_bidir_ab.clone(),
                task.rx_target_bidir_ba.clone(),
                task.rx_target_bidir_total.clone(),
            ]);
        }
    }
    readings_of(state, all)
}

fn validate_request(state: &UiState, req: &RunRequest) -> Result<(), String> {
    validate_plan::validate_request(state, &readings(state, req), req)
}

fn config_from_request(state: &UiState, req: &RunRequest) -> Config {
    suite_plan::config_from_request(state, &readings(state, req), req)
}

fn problems_of(cfg: &Config) -> Vec<String> {
    let mut problems = Vec::new();
    if cfg.iperf.duration == 0 {
        problems.push("iperf.duration 必须大于 0".to_string());
    }
    problems
}

fn validated_config_from_request(state: &UiState, req: &RunRequest) -> Result<Config, String> {
    let problems = problems_of(&config_from_request(state, req));
    suite_plan::validated_config_from_request(state, &readings(state, req), req, &problems)
}

fn parse_rx_target(raw: &str) -> Result<Option<RxTarget>, String> {
    let rd = readings_of(&state_with_pair(), vec![raw.to_string()]);
    validate::parse_rx_target(&rd, raw)
}

fn distinct<I: Iterator<Item = String>>(values: I) -> Vec<String> {
    distinct_texts(&values.collect())
}

// ---------------------------------------------------------------------------
// A builder of units
// ---------------------------------------------------------------------------

fn directions(direction: &OneOrMany) -> Vec<String> {
    let mut all = Vec::new();
    for text in direction.to_list() {
        match text.as_str() {
            "A->B" => all.push("ab".to_string()),
            "B->A" => all.push("ba".to_string()),
            "both" => all.extend(["ab".to_string(), "ba".to_string()]),
            _ => all.push(text),
        }
    }
    all
}

fn legs_of(
    dir: &str,
    src: &Endpoint,
    dst: &Endpoint,
    make: &dyn Fn(Endpoint, Endpoint) -> LegKind,
) -> Vec<Leg> {
    let forward = |tag: &str| Leg {
        tag: tag.into(),
        kind: make(src.clone(), dst.clone()),
    };
    let back = |tag: &str| Leg {
        tag: tag.into(),
        kind: make(dst.clone(), src.clone()),
    };
    match dir {
        "ab" => vec![forward("")],
        "ba" => vec![back("")],
        _ => vec![forward("ab"), back("ba")],
    }
}

fn bits(text: &str) -> String {
    let value = f64::from_bits(read_bandwidth(text).expect("bandwidth").mbps.bits);
    format!("{}", (value * 1e6) as u64)
}

fn build_test(state: &UiState, cfg: &Config, test: &TestSpec) -> Result<BuiltTest, String> {
    let src = read_endpoint(state, &test.src)?;
    let dst = read_endpoint(state, &test.dst)?;
    let mut units = Vec::new();
    let mut notices = Vec::new();
    let mut add = |dir: &str, label: String, legs: Vec<Leg>| {
        units.push(Unit {
            id: format!("{} {dir} {label}", test.name),
            title: format!("{} -> {} {dir} {label}", src.nic.name, dst.nic.name),
            est_secs: test.iperf_duration.unwrap_or(cfg.iperf.duration) + 10,
            direction: dir.into(),
            bidir: dir == "bidir",
            legs,
            target_lines: Vec::new(),
            bidir_total_target: None,
        });
    };
    for ip in &test.ip {
        if ip == "v6" && (src.nic.ipv6_ll.is_empty() || dst.nic.ipv6_ll.is_empty()) {
            notices.push(format!("跳过 {}: 缺少可用的 IPv6 地址", test.name));
            continue;
        }
        for dir in directions(&test.direction) {
            if test.kinds.iter().any(|kind| kind == "ping") {
                let sizes = test.ping_payload_sizes.clone().unwrap_or(cfg.ping.payload_sizes.clone());
                for size in sizes {
                    let legs = legs_of(&dir, &src, &dst, &|src, dst| {
                        LegKind::Ping(PingTask { src, dst })
                    });
                    add(&dir, format!("PING -l {size}"), legs);
                }
            }
            if test.transports.iter().any(|t| t == "tcp") {
                let windows = test.tcp_windows.clone().unwrap_or(cfg.iperf.tcp_windows.clone());
                let steps = if windows.is_empty() {
                    vec![None]
                } else {
                    windows.into_iter().map(Some).collect::<Vec<_>>()
                };
                for window in steps {
                    let mut extra = Vec::new();
                    if let Some(window) = window {
                        extra.extend(["-w".to_string(), window]);
                    }
                    let streams = test.tcp_streams.unwrap_or(test.streams);
                    extra.extend(["-P".to_string(), streams.to_string()]);
                    let label = format!("TCP {}", extra.join(" "));
                    let legs = legs_of(&dir, &src, &dst, &|src, dst| {
                        LegKind::IperfSingle(IperfTask {
                            src,
                            dst,
                            udp: false,
                            extra: extra.clone(),
                        })
                    });
                    add(&dir, label, legs);
                }
            }
            if test.transports.iter().any(|t| t == "udp") {
                let loads = test.udp_profiles.clone().unwrap_or(cfg.iperf.udp_profiles.clone());
                for load in &loads {
                    let own = |end: &Endpoint| {
                        cfg.link_profiles.by_nic.iter().find(|p| p.name == end.nic.name)
                    };
                    let sent = |end: &Endpoint| {
                        let profile = own(end);
                        let bandwidth = profile
                            .and_then(|p| p.udp_bandwidth.clone())
                            .unwrap_or(load.bandwidth.clone());
                        let length = profile
                            .and_then(|p| p.udp_length.clone())
                            .or(load.length.clone());
                        (bandwidth, length)
                    };
                    let (bandwidth, length) = sent(if dir == "ba" { &dst } else { &src });
                    let label = label(&UdpProfile {
                        bandwidth,
                        length,
                        window: load.window.clone(),
                    });
                    let streams = test.udp_streams.unwrap_or(1) as usize;
                    let legs = legs_of(&dir, &src, &dst, &|src, dst| {
                        let (bandwidth, length) = sent(&src);
                        let mut extra = vec!["-b".to_string(), bits(&bandwidth)];
                        if let Some(length) = length {
                            extra.extend(["-l".to_string(), length]);
                        }
                        if let Some(window) = &load.window {
                            extra.extend(["-w".to_string(), window.clone()]);
                        }
                        let task = || IperfTask {
                            src: src.clone(),
                            dst: dst.clone(),
                            udp: true,
                            extra: extra.clone(),
                        };
                        if streams > 1 {
                            LegKind::IperfGroup((0..streams).map(|_| task()).collect())
                        } else {
                            LegKind::IperfSingle(task())
                        }
                    });
                    add(&dir, label, legs);
                }
            }
        }
    }
    Ok(BuiltTest {
        src,
        dst,
        units,
        notices,
    })
}

fn label(load: &UdpProfile) -> String {
    let mut text = format!("UDP -b {}", load.bandwidth);
    if let Some(length) = &load.length {
        text += &format!(" -l {length}");
    }
    if let Some(window) = &load.window {
        text += &format!(" -w {window}");
    }
    text
}

fn built(state: &UiState, cfg: &Config) -> (Vec<Result<(), String>>, Vec<Unit>, Vec<String>) {
    let (mut specs, mut units, mut notices) = (Vec::new(), Vec::new(), Vec::new());
    for test in &cfg.tests {
        match build_test(state, cfg, test) {
            Ok(mut test) => {
                specs.push(Ok(()));
                units.append(&mut test.units);
                notices.append(&mut test.notices);
            }
            Err(error) => specs.push(Err(error)),
        }
    }
    (specs, units, notices)
}

fn units_of(state: &UiState, cfg: &Config) -> Vec<Unit> {
    built(state, cfg).1
}

fn canonical_plan_units(cfg: &Config, state: &UiState) -> Vec<Unit> {
    units_of(state, cfg)
}

fn ensure_config_builds_units(cfg: &Config, state: &UiState) -> Result<(), String> {
    let (specs, units, notices) = built(state, cfg);
    compile::ensure_config_builds_units(cfg, &specs, &units, &notices)
}

fn compile_request(state: &UiState, req: &RunRequest) -> Result<CompiledPlan, String> {
    compile_with(state, req, &Vec::new())
}

fn compile_with(
    state: &UiState,
    req: &RunRequest,
    fresh: &Vec<String>,
) -> Result<CompiledPlan, String> {
    let rd = readings(state, req);
    let cfg = suite_plan::config_from_request(state, &rd, req);
    let hash = format!("{:?}{:?}", cfg.tests, state.agent.interfaces);
    let build = if req.ui_plan.is_some() {
        Build::Suite(cfg.tests.iter().map(|test| build_test(state, &cfg, test)).collect())
    } else {
        let (specs, units, notices) = built(state, &cfg);
        Build::Matrix {
            specs,
            units,
            notices,
        }
    };
    let topology = format!("{:?}", state.master.interfaces.len());
    compile::compile_request(state, &rd, req, &problems_of(&cfg), build, fresh, hash, topology)
}

fn config_default() -> Config {
    Config {
        agent_port: 28765,
        agent_token: "factory".into(),
        ipv4_prefixes: vec!["192.168.".into()],
        iperf: IperfCfg {
            duration: 180,
            tcp_windows: vec!["4m".into()],
            udp_profiles: vec![UdpProfile {
                bandwidth: "1000m".into(),
                ..Default::default()
            }],
            rate_check: RateCheckCfg::default(),
        },
        ping: PingCfg {
            count: 100,
            payload_sizes: vec![32, 1400, 1600],
            ..Default::default()
        },
        ..Default::default()
    }
}

fn state_with_pair() -> UiState {
    let nic = |name: &str, role: &str, ip: &str| NicInfo {
        name: name.into(),
        role: role.into(),
        ipv4: ip.into(),
        speed_mbps: 2500,
        ..Default::default()
    };
    UiState {
        cfg: config_default(),
        agent_host: "10.0.0.2".into(),
        master: HostInfo {
            hostname: "m".into(),
            os: "test".into(),
            interfaces: vec![nic("以太网 6", "SGMII2.5G", "192.168.0.101")],
        },
        agent: HostInfo {
            hostname: "a".into(),
            os: "test".into(),
            interfaces: vec![nic("WLAN 3", "WIFI5G", "192.168.0.104")],
        },
    }
}

fn request() -> RunRequest {
    RunRequest {
        pairs: vec![PairSelection {
            rx_target_bidir_ab: String::new(),
            rx_target_bidir_ba: String::new(),
            rx_target_bidir_total: String::new(),
            udp_groups: Vec::new(),
            tcp_groups: Vec::new(),
            src: "master:NAME=以太网 6".into(),
            dst: "agent:NAME=WLAN 3".into(),
            directions: vec!["ab".into(), "bidir".into()],
            transports: vec!["tcp".into(), "udp".into()],
            ip: vec!["v4".into()],
        }],
        nic_policies: vec![
            NicPolicySelection {
                endpoint: "master:NAME=以太网 6".into(),
                rx_target: "1800".into(),
                udp_bandwidth: "2.6G".into(),
                udp_length: String::new(),
            },
            NicPolicySelection {
                endpoint: "agent:NAME=WLAN 3".into(),
                rx_target: "1600".into(),
                udp_bandwidth: "2.8G".into(),
                udp_length: String::new(),
            },
        ],
        duration: 60,
        tcp_windows: vec!["2m".into(), "4m".into(), "256m".into()],
        tcp_streams: vec![1, 5, 10],
        udp_bandwidths: vec!["1m".into(), "500m".into(), "1G".into()],
        udp_lengths: Vec::new(),
        udp_windows: Vec::new(),
        udp_streams: 1,
        udp_groups: Vec::new(),
        tcp_groups: Vec::new(),
        ping_count: 0,
        ping_payload_sizes: Vec::new(),
        limit_udp_by_link_speed: false,
        resume: false,
        screenshot: false,
        ui_plan: None,
        plan_hash: None,
        ..Default::default()
    }
}

fn suite_request() -> RunRequest {
    let mut req = request();
    req.pairs.clear();
    req.nic_policies.clear();
    req.tcp_windows.clear();
    req.tcp_streams.clear();
    req.udp_bandwidths.clear();
    req.udp_lengths.clear();
    req.udp_windows.clear();
    req.udp_streams = 1;
    req.ui_plan = Some(UiPlan {
        ui_plan_version: 1,
        link_sets: vec![UiLinkSet {
            id: "set-a".into(),
            name: "A".into(),
            pair_refs: vec![UiPairRef {
                id: "pair-a".into(),
                src: "master:NAME=以太网 6".into(),
                dst: "agent:NAME=WLAN 3".into(),
            }],
        }],
        recipes: UiRecipes {
            tcp: vec![UiRecipe {
                id: "tcp-r".into(),
                name: "TCP".into(),
                profiles: vec![UiRecipeProfile {
                    window: Some("4m".into()),
                    streams: UiU32Values::One(10),
                    ..Default::default()
                }],
                ..Default::default()
            }],
            udp: vec![UiRecipe {
                id: "udp-r".into(),
                name: "UDP".into(),
                profiles: vec![UiRecipeProfile {
                    bandwidth: Some("100m".into()),
                    length: Some("1200".into()),
                    streams: UiU32Values::One(1),
                    ..Default::default()
                }],
                ..Default::default()
            }],
            ping: Vec::new(),
        },
        suites: vec![UiSuite {
            id: "suite-a".into(),
            name: "TCP UDP".into(),
            note: String::new(),
            execution: "sequential".into(),
            order: vec!["task-tcp".into(), "task-udp".into()],
            tasks: vec![
                UiTask {
                    id: "task-tcp".into(),
                    name: "TCP".into(),
                    protocol: "tcp".into(),
                    directions: vec!["ab".into()],
                    ip: vec!["v4".into()],
                    recipe_ids: vec!["tcp-r".into()],
                    ..Default::default()
                },
                UiTask {
                    id: "task-udp".into(),
                    name: "UDP".into(),
                    protocol: "udp".into(),
                    directions: vec!["ba".into()],
                    ip: vec!["v4".into()],
                    recipe_ids: vec!["udp-r".into()],
                    ..Default::default()
                },
            ],
        }],
        bindings: vec![UiBinding {
            id: "bind-a".into(),
            link_set_id: "set-a".into(),
            suite_id: "suite-a".into(),
            mode: "replace".into(),
            order: 1,
            pair_ids: Vec::new(),
        }],
        plan_hash: None,
    });
    req.plan_hash = None;
    req
}

fn state_with_two_pairs() -> UiState {
    let nic = |name: &str, role: &str, ip: &str| NicInfo {
        name: name.into(),
        role: role.into(),
        ipv4: ip.into(),
        speed_mbps: 2500,
        ..Default::default()
    };
    UiState {
        cfg: config_default(),
        agent_host: "10.0.0.2".into(),
        master: HostInfo {
            hostname: "m".into(),
            os: "test".into(),
            interfaces: vec![
                nic("以太网 6", "SGMII2.5G", "192.168.0.101"),
                nic("以太网 7", "SGMII1G", "192.168.0.102"),
            ],
        },
        agent: HostInfo {
            hostname: "a".into(),
            os: "test".into(),
            interfaces: vec![
                nic("WLAN 3", "WIFI5G", "192.168.0.104"),
                nic("USB 4", "RNDIS", "192.168.0.105"),
            ],
        },
    }
}

#[test]
fn suite_plan_keeps_tcp_and_udp_as_independent_specs_in_suite_order() {
    let state = state_with_pair();
    let req = suite_request();
    let cfg = validated_config_from_request(&state, &req).expect("suite request should validate");
    assert_eq!(
        cfg.tests.len(),
        2,
        "one TCP and one UDP spec, no protocol cross product"
    );
    assert_eq!(cfg.tests[0].transports, vec!["tcp"]);
    assert_eq!(cfg.tests[1].transports, vec!["udp"]);
    assert_eq!(directions(&cfg.tests[0].direction), vec!["ab"]);
    assert_eq!(directions(&cfg.tests[1].direction), vec!["ba"]);

    let compiled = compile_request(&state, &req).expect("compile suite plan");
    assert_eq!(
        compiled.units.len(),
        2,
        "TCP and UDP each produce one independent unit"
    );
    assert_eq!(compiled.trace.len(), compiled.units.len());
    assert_eq!(compiled.trace[0].protocol.as_deref(), Some("tcp"));
    assert_eq!(compiled.trace[1].protocol.as_deref(), Some("udp"));
    assert_eq!(compiled.trace[0].direction.as_deref(), Some("ab"));
    assert_eq!(compiled.trace[1].direction.as_deref(), Some("ba"));
    assert!(!compiled.plan_hash.is_empty());
    assert!(!compiled.topology_fingerprint.is_empty());
}

#[test]
fn suite_trace_distinguishes_both_from_a_bidirectional_unit() {
    let state = state_with_pair();
    let mut req = suite_request();
    let plan = req.ui_plan.as_mut().unwrap();
    plan.suites[0].tasks.retain(|task| task.id == "task-tcp");
    plan.suites[0].order = vec!["task-tcp".into()];
    plan.suites[0].tasks[0].directions = vec!["both".into()];

    let compiled = compile_request(&state, &req).expect("both should compile");
    assert_eq!(compiled.units.len(), 2);
    assert!(compiled.units.iter().all(|unit| !unit.bidir));
    assert_eq!(
        compiled
            .trace
            .iter()
            .map(|trace| trace.direction.as_deref())
            .collect::<Vec<_>>(),
        vec![Some("ab"), Some("ba")]
    );

    let mut req = suite_request();
    let plan = req.ui_plan.as_mut().unwrap();
    plan.suites[0].tasks.retain(|task| task.id == "task-tcp");
    plan.suites[0].order = vec!["task-tcp".into()];
    plan.suites[0].tasks[0].directions = vec!["bidir".into()];
    let compiled = compile_request(&state, &req).expect("bidir should compile");
    assert_eq!(compiled.units.len(), 1);
    assert!(compiled.units[0].bidir);
    assert_eq!(compiled.trace[0].direction.as_deref(), Some("bidir"));
}

#[test]
fn suite_plan_rejects_legacy_pairs_and_parallel_execution() {
    let state = state_with_pair();
    let mut req = suite_request();
    req.pairs = request().pairs;
    let error = validate_request(&state, &req).expect_err("mixed request formats must fail");
    assert!(error.contains("不能同时"), "{error}");

    let mut req = suite_request();
    req.ui_plan.as_mut().unwrap().suites[0].execution = "parallel".into();
    let error = validate_request(&state, &req).expect_err("parallel suites are not supported");
    assert!(error.contains("sequential"), "{error}");
}

#[test]
fn quick_plan_applies_request_level_ping_defaults() {
    let state = state_with_pair();
    let mut req = suite_request();
    req.ping_count = 5;
    req.ping_payload_sizes = vec![64, 1400];
    let plan = req.ui_plan.as_mut().unwrap();
    plan.recipes.ping.clear();
    plan.suites[0].order.push("task-ping".into());
    plan.suites[0].tasks.push(UiTask {
        id: "task-ping".into(),
        name: "Ping".into(),
        protocol: "ping".into(),
        directions: vec!["ab".into()],
        ip: vec!["v4".into()],
        ..Default::default()
    });

    let compiled = compile_request(&state, &req).expect("ping suite should validate");
    assert_eq!(compiled.cfg.ping.count, 5);
    assert_eq!(compiled.cfg.ping.payload_sizes, vec![64, 1400]);
    let ping = compiled
        .cfg
        .tests
        .iter()
        .find(|test| test.kinds.iter().any(|kind| kind == "ping"))
        .expect("ping task should compile");
    assert_eq!(
        ping.ping_count, None,
        "task should inherit request defaults"
    );
    assert_eq!(ping.ping_payload_sizes, None);
}

#[test]
fn quick_plan_rejects_ping_recipe_references_until_recipe_fields_exist() {
    let state = state_with_pair();
    let mut req = suite_request();
    let plan = req.ui_plan.as_mut().expect("suite plan");
    plan.suites[0].tasks.retain(|task| task.id == "task-tcp");
    plan.suites[0].order = vec!["task-tcp".into()];
    plan.recipes.ping.push(UiRecipe {
        id: "ping-r".into(),
        name: "PING recipe".into(),
        ..Default::default()
    });
    plan.suites[0].tasks.push(UiTask {
        id: "task-ping".into(),
        name: "PING".into(),
        protocol: "ping".into(),
        directions: vec!["ab".into()],
        ip: vec!["v4".into()],
        recipe_ids: vec!["ping-r".into()],
        ..Default::default()
    });
    plan.suites[0].order.push("task-ping".into());

    let error = validate_request(&state, &req)
        .expect_err("PING recipe references must not be silently ignored");
    assert!(error.contains("暂不支持 PING 配置"), "{error}");
}

#[test]
fn the_ui_plan_traces_units_through_origin_not_through_the_test_name() {
    let state = state_with_pair();
    let req = suite_request();
    let compiled = compile_request(&state, &req).expect("compile");

    assert!(!compiled.cfg.tests.is_empty());
    for test in &compiled.cfg.tests {
        let origin = test
            .origin
            .as_ref()
            .unwrap_or_else(|| panic!("{} 缺少 origin", test.name));
        assert_eq!(origin.link_set_id, "set-a");
        assert_eq!(origin.link_set_name, "A");
        assert_eq!(origin.pair_id, "pair-a");
        assert_eq!(origin.suite_id, "suite-a");
        assert!(!origin.binding_id.is_empty(), "binding_id 要填");
        assert!(!origin.task_id.is_empty(), "task_id 要填");

        assert_eq!(test.link_group.as_deref(), Some("A"));

        assert!(
            !test.name.starts_with("ui-plan/") && !test.name.contains('%'),
            "name 应该是给人看的，实得 {:?}",
            test.name
        );
        assert!(
            test.name.contains("TCP UDP"),
            "展示名里要有套件名，实得 {:?}",
            test.name
        );
    }

    let seen: Vec<_> = compiled
        .trace
        .iter()
        .map(|t| (t.link_set_id.clone(), t.suite_id.clone(), t.task_id.clone()))
        .collect();
    assert!(!seen.is_empty(), "trace 不该为空");
    for (link_set_id, suite_id, task_id) in &seen {
        assert_eq!(link_set_id.as_deref(), Some("set-a"));
        assert_eq!(suite_id.as_deref(), Some("suite-a"));
        assert!(task_id.is_some(), "task_id 要能溯源");
    }
    assert!(
        compiled.trace.iter().all(|t| matches!(
            t.protocol.as_deref(),
            Some("tcp") | Some("udp") | Some("ping")
        )),
        "trace 的协议标签丢了: {:?}",
        compiled
            .trace
            .iter()
            .map(|t| t.protocol.clone())
            .collect::<Vec<_>>()
    );
}

#[test]
fn a_config_exported_by_the_old_encoder_still_traces_back() {
    let mut test = TestSpec {
        name: "ui-plan/set-x/bind-x/pair-x/suite-x/task-x/recipe-x/udp".into(),
        src: "master:NAME=以太网 6".into(),
        dst: "agent:NAME=WLAN 3".into(),
        direction: OneOrMany::One("A->B".into()),
        kinds: vec!["iperf".into()],
        transports: vec!["udp".into()],
        ip: vec!["v4".into()],
        streams: 1,
        tcp_streams: None,
        udp_streams: None,
        iperf_duration: None,
        ping_count: None,
        ping_payload_sizes: None,
        tcp_windows: None,
        udp_profiles: None,
        rate_mode: None,
        rate_targets_mbps: None,
        rate_targets_bidir_mbps: None,
        rate_target_bidir_total_mbps: None,
        link_group: None,
        origin: None,
    };

    let source = ui_source_from_spec(&test).expect("旧名字必须还能解析");
    assert_eq!(source.link_set_id, "set-x");
    assert_eq!(source.pair_id, "pair-x");
    assert_eq!(source.suite_id, "suite-x");
    assert_eq!(source.task_id, "task-x");
    assert_eq!(source.recipe_id, "recipe-x");
    assert_eq!(source.protocol, "udp");

    test.origin = Some(UiOrigin {
        pair_id: "pair-new".into(),
        link_set_id: "set-new".into(),
        link_set_name: "新集合".into(),
        binding_id: "bind-new".into(),
        suite_id: "suite-new".into(),
        task_id: "task-new".into(),
        recipe_id: "recipe-new".into(),
    });
    let source = ui_source_from_spec(&test).expect("origin 必须被认");
    assert_eq!(source.link_set_id, "set-new");
    assert_eq!(source.pair_id, "pair-new");
    assert_eq!(
        source.protocol, "udp",
        "协议从 transports 推，不从 origin 存"
    );

    test.origin = Some(UiOrigin::default());
    let source = ui_source_from_spec(&test).expect("空 origin 要回落到 name");
    assert_eq!(source.link_set_id, "set-x");
}

#[test]
fn quick_plan_rejects_the_dead_recipe_mode_field_instead_of_ignoring_it() {
    let state = state_with_pair();
    for mode in ["fixed", "scan", "Fixed"] {
        let mut req = suite_request();
        req.ui_plan.as_mut().expect("suite plan").recipes.udp[0].mode = mode.into();
        let error = validate_request(&state, &req)
            .err()
            .unwrap_or_else(|| panic!("mode={mode} 必须被拒绝，不能静默忽略"));
        assert!(error.contains("mode 字段已废弃"), "{error}");
        assert!(
            error.contains("删掉"),
            "报错要告诉用户怎么改，而不是只说不行: {error}"
        );
    }

    let req = suite_request();
    assert!(
        req.ui_plan.as_ref().expect("suite plan").recipes.udp[0]
            .mode
            .is_empty(),
        "测试基线自己不该带 mode"
    );
    assert!(validate_request(&state, &req).is_ok(), "空 mode 必须放行");
}

#[test]
fn quick_plan_rejects_append_binding_mode_without_silent_replace() {
    let state = state_with_pair();
    let mut req = suite_request();
    req.ui_plan.as_mut().expect("suite plan").bindings[0].mode = "append".into();

    let error = validate_request(&state, &req)
        .expect_err("unsupported append mode must fail at validation");
    assert!(error.contains("append 尚未支持"), "{error}");
}

#[test]
fn quick_plan_ignores_unbound_empty_link_set_but_rejects_bound_empty_set() {
    let state = state_with_pair();
    let mut req = suite_request();
    {
        let plan = req.ui_plan.as_mut().expect("suite plan");
        plan.link_sets.push(UiLinkSet {
            id: "empty-draft".into(),
            name: "待填写".into(),
            pair_refs: Vec::new(),
        });
    }
    let compiled = compile_request(&state, &req).expect("unbound draft is harmless");
    assert_eq!(compiled.cfg.tests.len(), 2);

    req.ui_plan.as_mut().expect("suite plan").bindings[0].link_set_id = "empty-draft".into();
    let error = validate_request(&state, &req).expect_err("bound empty set must fail");
    assert!(error.contains("没有可执行的 pair_ref"), "{error}");

    let mut req = suite_request();
    req.ui_plan.as_mut().expect("suite plan").bindings[0].pair_ids = vec!["pair-a".into()];
    assert!(
        validate_request(&state, &req).is_ok(),
        "an existing pair_ids subset should remain executable"
    );
}

#[test]
fn quick_plan_ignores_stale_pairs_inside_an_unbound_draft_set() {
    let state = state_with_pair();
    let mut req = suite_request();
    {
        let plan = req.ui_plan.as_mut().expect("suite plan");
        plan.link_sets.push(UiLinkSet {
            id: "stale-draft".into(),
            name: "网卡换过之后剩下的草稿".into(),
            pair_refs: vec![UiPairRef {
                id: "pair-gone".into(),
                src: "master:NAME=已经拔掉的网口".into(),
                dst: "agent:NAME=也不在了".into(),
            }],
        });
    }
    let compiled =
        compile_request(&state, &req).expect("未绑定草稿里的失效对不该挡下可执行的 binding");
    assert_eq!(compiled.cfg.tests.len(), 2);

    req.ui_plan.as_mut().expect("suite plan").bindings[0].link_set_id = "stale-draft".into();
    let error = validate_request(&state, &req).expect_err("被绑定的失效对必须拒绝");
    assert!(error.contains("已失效"), "{error}");

    let mut req = suite_request();
    {
        let plan = req.ui_plan.as_mut().expect("suite plan");
        plan.link_sets[0].pair_refs.push(UiPairRef {
            id: "pair-gone".into(),
            src: "master:NAME=已经拔掉的网口".into(),
            dst: "agent:NAME=也不在了".into(),
        });
        plan.bindings[0].pair_ids = vec!["pair-gone".into()];
    }
    let error = validate_request(&state, &req).expect_err("被 pair_ids 选中的失效对必须拒绝");
    assert!(error.contains("已失效"), "{error}");

    let mut req = suite_request();
    {
        let plan = req.ui_plan.as_mut().expect("suite plan");
        let good = plan.link_sets[0].pair_refs[0].id.clone();
        plan.link_sets[0].pair_refs.push(UiPairRef {
            id: "pair-gone".into(),
            src: "master:NAME=已经拔掉的网口".into(),
            dst: "agent:NAME=也不在了".into(),
        });
        plan.bindings[0].pair_ids = vec![good];
    }
    assert!(
        validate_request(&state, &req).is_ok(),
        "没被选中的失效对不该挡下同集合里被选中的那条"
    );
}

#[test]
fn quick_plan_rejects_empty_udp_recipe_that_would_emit_no_units() {
    let state = state_with_pair();
    let mut req = suite_request();
    let recipe = req.ui_plan.as_mut().unwrap().recipes.udp[0].clone();
    let empty = UiRecipe {
        id: recipe.id,
        name: recipe.name,
        mode: recipe.mode,
        profiles: vec![UiRecipeProfile::default()],
        ..Default::default()
    };
    req.ui_plan.as_mut().unwrap().recipes.udp[0] = empty;
    let error = validate_request(&state, &req).expect_err("empty UDP recipe must fail");
    assert!(error.contains("-b") || error.contains("有效"), "{error}");
}

#[test]
fn quick_plan_validates_task_duration_and_profile_dimensions() {
    let state = state_with_pair();
    let mut req = suite_request();
    req.ui_plan.as_mut().unwrap().suites[0].tasks[0].duration = Some(0);
    let error = validate_request(&state, &req).expect_err("zero task duration must fail");
    assert!(error.contains("时长"), "{error}");

    let mut req = suite_request();
    req.ui_plan.as_mut().unwrap().recipes.udp[0].profiles[0].length = Some("65508".into());
    let error = validate_request(&state, &req).expect_err("oversized UDP profile must fail");
    assert!(error.contains("65507"), "{error}");

    let mut req = suite_request();
    req.ui_plan.as_mut().unwrap().recipes.udp[0].profiles[0].window = Some("not-size".into());
    let error = validate_request(&state, &req).expect_err("invalid UDP profile window must fail");
    assert!(error.contains("profile -w"), "{error}");
}

#[test]
fn quick_plan_preserves_slashes_in_trace_ids() {
    let state = state_with_pair();
    let mut req = suite_request();
    let plan = req.ui_plan.as_mut().unwrap();
    plan.link_sets[0].id = "set/a".into();
    plan.link_sets[0].pair_refs[0].id = "pair/a".into();
    plan.recipes.tcp[0].id = "tcp/recipe".into();
    plan.recipes.udp[0].id = "udp/recipe".into();
    plan.suites[0].id = "suite/a".into();
    plan.suites[0].tasks[0].id = "task/tcp".into();
    plan.suites[0].tasks[1].id = "task/udp".into();
    plan.suites[0].order = vec!["task/tcp".into(), "task/udp".into()];
    plan.suites[0].tasks[0].recipe_ids = vec!["tcp/recipe".into()];
    plan.suites[0].tasks[1].recipe_ids = vec!["udp/recipe".into()];
    plan.bindings[0].id = "binding/a".into();
    plan.bindings[0].link_set_id = "set/a".into();
    plan.bindings[0].suite_id = "suite/a".into();

    let compiled = compile_request(&state, &req).expect("slash IDs should be valid");
    assert_eq!(compiled.trace[0].link_set_id.as_deref(), Some("set/a"));
    assert_eq!(compiled.trace[0].pair_id.as_deref(), Some("pair/a"));
    assert_eq!(compiled.trace[0].suite_id.as_deref(), Some("suite/a"));
    assert_eq!(compiled.trace[0].task_id.as_deref(), Some("task/tcp"));
    assert_eq!(compiled.trace[0].recipe_id.as_deref(), Some("tcp/recipe"));
    assert_eq!(compiled.trace[1].task_id.as_deref(), Some("task/udp"));
    assert_eq!(compiled.trace[1].recipe_id.as_deref(), Some("udp/recipe"));
}

#[test]
fn quick_plan_rejects_duplicate_pair_ids_in_a_binding() {
    let state = state_with_pair();
    let mut req = suite_request();
    req.ui_plan.as_mut().unwrap().bindings[0].pair_ids = vec!["pair-a".into(), "pair-a".into()];
    let error = validate_request(&state, &req).expect_err("duplicate pair refs must fail");
    assert!(error.contains("重复引用"), "{error}");
}

#[test]
fn quick_plan_allows_link_set_and_recipe_ids_to_share_a_namespace_name() {
    let state = state_with_pair();
    let mut req = suite_request();
    let plan = req.ui_plan.as_mut().unwrap();
    plan.link_sets[0].id = "default".into();
    plan.recipes.tcp[0].id = "default".into();
    plan.bindings[0].link_set_id = "default".into();
    plan.suites[0].tasks[0].recipe_ids = vec!["default".into()];

    let compiled =
        compile_request(&state, &req).expect("link-set and recipe IDs may match across namespaces");
    assert_eq!(compiled.cfg.tests.len(), 2);
}

#[test]
fn quick_plan_honors_stream_axes_on_legacy_udp_profiles() {
    let state = state_with_pair();
    let mut req = suite_request();
    let recipe = &mut req.ui_plan.as_mut().unwrap().recipes.udp[0];
    recipe.profiles.clear();
    recipe.bandwidths.clear();
    recipe.lengths.clear();
    recipe.windows.clear();
    recipe.udp_profiles = vec![UdpProfile { bandwidth: "100m".into(), ..Default::default() }];
    recipe.udp_streams = vec![2, 3];
    let cfg = validated_config_from_request(&state, &req).expect("legacy UDP recipe valid");
    let streams: Vec<u32> = cfg
        .tests
        .iter()
        .filter(|test| test.transports.iter().any(|transport| transport == "udp"))
        .filter_map(|test| test.udp_streams)
        .collect();
    assert_eq!(streams, vec![2, 3]);
}

#[test]
fn ui_selection_becomes_a_real_config() {
    let cfg = config_from_request(&state_with_pair(), &request());
    assert_eq!(cfg.iperf.tcp_windows, vec!["2m", "4m", "256m"]);

    let master_nic = cfg
        .link_profiles
        .by_nic
        .iter()
        .find(|p| p.name == "以太网 6")
        .expect("主控网卡应有覆盖项");
    assert_eq!(master_nic.host, "master");
    assert_eq!(master_nic.udp_bandwidth.as_deref(), Some("2.6G"));
    assert_eq!(master_nic.rx_target_mbps, mbps(1800.0));

    let agent_nic = cfg
        .link_profiles
        .by_nic
        .iter()
        .find(|p| p.name == "WLAN 3")
        .expect("辅测网卡应有覆盖项");
    assert_eq!(agent_nic.udp_bandwidth.as_deref(), Some("2.8G"));
    assert_eq!(agent_nic.rx_target_mbps, mbps(1600.0));
}

#[test]
fn stream_steps_expand_into_separate_specs_without_duplicating_udp() {
    let cfg = config_from_request(&state_with_pair(), &request());
    let tcp: Vec<&TestSpec> = cfg
        .tests
        .iter()
        .filter(|t| t.transports.contains(&"tcp".to_string()))
        .collect();
    let udp: Vec<&TestSpec> = cfg
        .tests
        .iter()
        .filter(|t| t.transports.contains(&"udp".to_string()))
        .collect();

    assert_eq!(tcp.len(), 3, "三个 -P 档位各一份");
    let mut steps: Vec<u32> = tcp.iter().filter_map(|t| t.tcp_streams).collect();
    steps.sort_unstable();
    assert_eq!(steps, vec![1, 5, 10]);
    for spec in &tcp {
        assert_eq!(
            spec.tcp_windows.as_deref(),
            Some(["2m".to_string(), "4m".to_string(), "256m".to_string()].as_slice())
        );
    }
    assert_eq!(udp.len(), 1, "UDP 不该被 -P 档位复制");
}

#[test]
fn explicit_bandwidth_on_every_sending_nic_opts_out_of_the_global_sweep() {
    let with_override = config_from_request(&state_with_pair(), &request());
    let udp = with_override
        .tests
        .iter()
        .find(|t| t.transports.contains(&"udp".to_string()))
        .expect("应有 UDP spec");
    assert_eq!(udp.udp_profiles.as_ref().map(|v| v.len()), Some(1));

    let mut req = request();
    for policy in &mut req.nic_policies {
        policy.udp_bandwidth.clear();
    }
    let swept = config_from_request(&state_with_pair(), &req);
    let udp = swept
        .tests
        .iter()
        .find(|t| t.transports.contains(&"udp".to_string()))
        .expect("应有 UDP spec");
    assert_eq!(
        udp.udp_profiles.as_ref().map(|v| v.len()),
        Some(3),
        "没有覆盖时按全局三个档位扫描"
    );
}

#[test]
fn a_one_sided_bandwidth_override_sweeps_only_the_unpinned_direction() {
    let state = state_with_pair();
    let mut req = request();
    req.pairs[0].directions = vec!["ab".into(), "ba".into()];
    req.pairs[0].transports = vec!["udp".into()];
    req.nic_policies[1].udp_bandwidth.clear();

    let cfg = config_from_request(&state, &req);
    let pinned = cfg
        .tests
        .iter()
        .find(|test| directions(&test.direction) == vec!["ab"])
        .expect("被钉死的 ab 方向应单独成一份 spec");
    assert_eq!(
        pinned.udp_profiles.as_ref().map(Vec::len),
        Some(1),
        "ab 的发送腿已被覆盖，扫档位只会生成重复单元"
    );
    let swept = cfg
        .tests
        .iter()
        .find(|test| directions(&test.direction) == vec!["ba"])
        .expect("未覆盖的 ba 方向应保留档位扫描");
    assert_eq!(
        swept.udp_profiles.as_ref().map(Vec::len),
        Some(3),
        "未覆盖的反向发送腿仍要跑 1m/500m/1G 三档"
    );

    let units = units_of(&state, &cfg);
    let titles: Vec<&str> = units.iter().map(|unit| unit.title.as_str()).collect();
    let unique: std::collections::HashSet<&str> = titles.iter().copied().collect();
    assert_eq!(
        unique.len(),
        titles.len(),
        "同一条命令不该排进队列两次: {titles:?}"
    );
    assert_eq!(titles.len(), 4, "ab 一个 + ba 三档: {titles:?}");
}

#[test]
fn blank_inputs_produce_no_overrides() {
    let mut req = request();
    for policy in &mut req.nic_policies {
        policy.rx_target.clear();
        policy.udp_bandwidth.clear();
        policy.udp_length.clear();
    }
    let cfg = config_from_request(&state_with_pair(), &req);
    assert!(cfg.link_profiles.by_nic.is_empty());
}

#[test]
fn an_empty_checkbox_group_is_rejected_instead_of_silently_defaulting() {
    let state = state_with_pair();
    let mut req = request();
    req.pairs[0].directions.clear();
    assert!(validate_request(&state, &req)
        .unwrap_err()
        .contains("至少勾一个有效方向"));

    let mut req = request();
    req.pairs[0].transports.clear();
    assert!(validate_request(&state, &req)
        .unwrap_err()
        .contains("至少勾 TCP / UDP / PING"));
}

#[test]
fn invalid_sweep_values_are_rejected_before_starting_a_run() {
    let state = state_with_pair();
    let mut req = request();
    req.tcp_streams = vec![0, 33];
    assert!(validate_request(&state, &req)
        .unwrap_err()
        .contains("TCP -P"));

    let mut req = request();
    req.udp_bandwidths = vec!["500m-junk".into()];
    assert!(validate_request(&state, &req)
        .unwrap_err()
        .contains("UDP -b"));
}

#[test]
fn empty_lists_fall_back_to_the_configured_values() {
    let mut req = request();
    req.tcp_windows.clear();
    req.tcp_streams.clear();
    req.udp_bandwidths.clear();
    let state = state_with_pair();
    let cfg = config_from_request(&state, &req);
    assert_eq!(cfg.iperf.tcp_windows, state.cfg.iperf.tcp_windows);
    let tcp: Vec<&TestSpec> = cfg
        .tests
        .iter()
        .filter(|t| t.transports.contains(&"tcp".to_string()))
        .collect();
    assert_eq!(tcp.len(), 1, "没填 -P 时按单档跑");
    assert_eq!(tcp[0].tcp_streams, Some(1));
}

#[test]
fn the_generated_config_builds_real_units() {
    let state = state_with_pair();
    let cfg = config_from_request(&state, &request());
    let units = build_test(&state, &cfg, &cfg.tests[0]).expect("界面生成的 TestSpec 必须可解析").units;
    assert!(!units.is_empty(), "应生成任务");
    assert!(units.iter().any(|u| u.bidir), "勾了双向就该有双向单元");
}

#[test]
fn a_selection_that_builds_zero_units_is_rejected_before_run() {
    let state = state_with_pair();
    let mut req = request();
    req.pairs[0].ip = vec!["v6".into()];
    let cfg = validated_config_from_request(&state, &req).expect("请求字段本身有效");
    let error = ensure_config_builds_units(&cfg, &state).unwrap_err();
    assert!(error.contains("没有生成任何测试单元"));
    assert!(error.contains("缺少可用的 IPv6 地址"));
}

#[test]
fn the_chosen_subnets_reach_the_config_that_actually_runs() {
    let mut state = state_with_pair();
    state.cfg.ipv4_prefixes = vec!["10.228.".into()];
    let cfg = config_from_request(&state, &request());
    assert_eq!(cfg.ipv4_prefixes, vec!["10.228."]);
}

#[test]
fn udp_datagram_size_steps_cross_with_bandwidth_steps() {
    let state = state_with_pair();
    let mut req = request();
    req.pairs[0].transports = vec!["udp".into()];
    req.pairs[0].directions = vec!["ab".into()];
    req.nic_policies
        .iter_mut()
        .for_each(|p| p.udp_bandwidth.clear());
    req.udp_bandwidths = vec!["100m".into(), "500m".into()];
    req.udp_lengths = vec!["64".into(), "1400".into()];

    let cfg = config_from_request(&state, &req);
    let udp = cfg
        .tests
        .iter()
        .find(|t| t.transports.contains(&"udp".to_string()))
        .expect("应有 UDP spec");
    let profiles = udp.udp_profiles.as_ref().expect("应有档位");
    let mut combos: Vec<(String, Option<String>)> = profiles
        .iter()
        .map(|p| (p.bandwidth.clone(), p.length.clone()))
        .collect();
    combos.sort();
    assert_eq!(
        combos,
        vec![
            ("100m".to_string(), Some("64".to_string())),
            ("100m".to_string(), Some("1400".to_string())),
            ("500m".to_string(), Some("64".to_string())),
            ("500m".to_string(), Some("1400".to_string())),
        ]
        .into_iter()
        .collect::<std::collections::BTreeSet<_>>()
        .into_iter()
        .collect::<Vec<_>>(),
        "2 个 -b × 2 个 -l = 4 档"
    );

    let units = units_of(&state, &cfg);
    let mut sent: Vec<Vec<String>> = Vec::new();
    for unit in &units {
        for leg in &unit.legs {
            match &leg.kind {
                LegKind::IperfSingle(task) => sent.push(task.extra.clone()),
                LegKind::IperfGroup(streams) => {
                    sent.extend(streams.iter().map(|task| task.extra.clone()))
                }
                _ => {}
            }
        }
    }
    assert!(!sent.is_empty(), "应当建出 iperf 任务");
    for extra in &sent {
        let at = extra
            .iter()
            .position(|arg| arg == "-l")
            .unwrap_or_else(|| panic!("每条 UDP 命令都要带 -l: {extra:?}"));
        assert!(
            matches!(
                extra.get(at + 1).map(String::as_str),
                Some("64") | Some("1400")
            ),
            "{extra:?}"
        );
    }
}

#[test]
fn a_blank_datagram_size_sends_no_l_flag_at_all() {
    let mut req = request();
    req.nic_policies
        .iter_mut()
        .for_each(|p| p.udp_bandwidth.clear());
    req.udp_lengths = vec!["  ".into(), String::new()];
    let cfg = config_from_request(&state_with_pair(), &req);
    let udp = cfg
        .tests
        .iter()
        .find(|t| t.transports.contains(&"udp".to_string()))
        .expect("应有 UDP spec");
    let profiles = udp.udp_profiles.as_ref().expect("应有档位");
    assert_eq!(profiles.len(), 3, "只有三个 -b 档位");
    assert!(profiles.iter().all(|p| p.length.is_none()));
}

#[test]
fn pinning_the_bandwidth_does_not_pin_the_datagram_size() {
    let mut req = request();
    req.pairs[0].transports = vec!["udp".into()];
    req.pairs[0].directions = vec!["ab".into()];
    req.udp_lengths = vec!["64".into(), "1400".into()];
    let cfg = config_from_request(&state_with_pair(), &req);
    let pinned = cfg
        .tests
        .iter()
        .find(|t| directions(&t.direction) == vec!["ab"])
        .expect("ab 被钉死");
    let profiles = pinned.udp_profiles.as_ref().expect("应有档位");
    assert_eq!(profiles.len(), 2, "两个 -l 档位各一份");
    assert!(profiles.iter().all(|p| p.length.is_some()));
}

#[test]
fn the_console_decides_clipping_regardless_of_the_config_file() {
    let mut state = state_with_pair();
    state.cfg.limit_udp_by_link_speed = true;

    let req = request();
    assert!(
        !config_from_request(&state, &req).limit_udp_by_link_speed,
        "界面没勾就不裁剪，配置文件里的 true 不能悄悄生效"
    );

    let mut on = request();
    on.limit_udp_by_link_speed = true;
    assert!(config_from_request(&state, &on).limit_udp_by_link_speed);
}

#[test]
fn the_sampling_interval_ceiling_follows_which_side_is_being_watched() {
    assert_eq!(monitor_interval_ms("master", 0), 1_000, "0 = 用默认值");
    assert_eq!(monitor_interval_ms("agent", 0), 1_000);

    assert_eq!(
        monitor_interval_ms("master", 10_000),
        10_000,
        "本机自己 sleep，给多少是多少"
    );
    assert_eq!(
        monitor_interval_ms("agent", 10_000),
        5_000,
        "辅测机侧不能超过 agent 自己的夹紧上限"
    );
    assert_eq!(
        monitor_interval_ms("agent", 5_000),
        5_000,
        "正好在上限上要放行"
    );

    assert_eq!(monitor_interval_ms("master", 10), 200, "下限两端一致");
    assert_eq!(monitor_interval_ms("agent", 10), 200);
    assert_eq!(monitor_interval_ms("master", 999_999), 60_000);
}

#[test]
fn the_console_only_quits_once_the_run_it_was_hosting_has_wound_down() {
    assert!(!should_shut_down(false, false), "没按 Ctrl+C 就不该退");
    assert!(!should_shut_down(false, true), "没按 Ctrl+C 更不该退");
    assert!(
        !should_shut_down(true, true),
        "测试还在跑：先让它把报告写完，这一拍不能退"
    );
    assert!(should_shut_down(true, false), "空闲时按 Ctrl+C 必须退出");
}

#[test]
fn only_explicit_loopback_addresses_count_as_local() {
    for local in [
        "127.0.0.1",
        "127.1.2.3",
        "localhost",
        "LOCALHOST",
        "::1",
        " 127.0.0.1 ",
    ] {
        assert!(bind_is_loopback(local), "{local} 应判为回环");
    }
    for exposed in ["0.0.0.0", "192.168.8.101", "::", "10.0.0.1", ""] {
        assert!(!bind_is_loopback(exposed), "{exposed} 不该判为回环");
    }
}

#[test]
fn the_console_accepts_its_token_from_query_header_or_bearer() {
    assert!(
        request_is_authorized("", "", None, None),
        "没设口令就不该拦任何人"
    );

    let ok = |query: &str, header: Option<&str>, bearer: Option<&str>| {
        request_is_authorized("s3cr3t", query, header, bearer)
    };
    assert!(ok("token=s3cr3t", None, None), "地址栏里只能靠查询串");
    assert!(ok("from=3&token=s3cr3t", None, None), "查询串里位置不固定");
    assert!(ok("", Some("s3cr3t"), None), "页面之后走请求头");
    assert!(ok("", None, Some("s3cr3t")), "curl 复现问题时走 Bearer");

    assert!(!ok("", None, None), "什么都不带必须拒绝");
    assert!(!ok("token=wrong", None, None), "口令错必须拒绝");
    assert!(!ok("", Some("wrong"), None));
    assert!(!ok("mytoken=s3cr3t", None, None), "后缀撞名不算带对口令");
}

#[test]
fn a_malformed_percent_escape_never_panics_the_query_parser() {
    for raw in ["%", "%4", "%中文", "%zz", "abc%", "%%41", "中%文字"] {
        let decoded = urldecode(raw);
        assert!(!decoded.is_empty(), "{raw} 不该解出空串");
    }
    assert_eq!(urldecode("%41%42"), "AB");
    assert_eq!(urldecode("a+b"), "a b");
    assert_eq!(urldecode("%zz"), "%zz", "解不动的转义原样保留");
}

#[test]
fn a_token_with_awkward_characters_survives_the_printed_url() {
    let token = "a b&c=d%e/f中文";
    let encoded = urlencode(token);
    assert!(!encoded.contains(' ') && !encoded.contains('&'));
    assert!(request_is_authorized(
        token,
        &format!("token={encoded}"),
        None,
        None
    ));
}

#[test]
fn checking_ping_in_the_matrix_produces_ping_units_with_the_typed_budget() {
    let state = state_with_pair();
    let mut req = request();
    req.pairs[0].transports = vec!["ping".into()];
    req.ping_count = 5;
    req.ping_payload_sizes = vec![64, 1400];

    let cfg = validated_config_from_request(&state, &req).expect("勾 PING 必须能过校验");
    let ping: Vec<_> = cfg
        .tests
        .iter()
        .filter(|t| t.kinds.iter().any(|k| k == "ping"))
        .collect();
    assert_eq!(ping.len(), 1, "勾了 PING 就该有一个 ping 测试项");
    assert_eq!(ping[0].ping_count, Some(5), "次数必须用界面填的");
    assert_eq!(
        ping[0].ping_payload_sizes.as_deref(),
        Some(&[64u32, 1400][..]),
        "包长档位必须用界面填的，回落到默认的三档会平白多跑几分钟"
    );
    assert!(ping[0].transports.is_empty(), "ping 单元不带 transport");
    assert!(
        cfg.tests
            .iter()
            .all(|t| !t.kinds.iter().any(|k| k == "iperf")),
        "只勾 PING 时不该冒出 iperf 单元"
    );
    ensure_config_builds_units(&cfg, &state).expect("ping 选择必须能构建出单元");
}

#[test]
fn the_bidirectional_threshold_is_per_pair_and_only_applies_to_bidirectional_units() {
    let state = state_with_pair();
    let mut req = request();
    req.pairs[0].directions = vec!["ab".into(), "bidir".into()];
    req.pairs[0].rx_target_bidir_ab = "1000".into();
    req.pairs[0].rx_target_bidir_ba = "800".into();

    let cfg = validated_config_from_request(&state, &req).expect("应能过校验");
    let targets = cfg.tests[0]
        .rate_targets_bidir_mbps
        .as_ref()
        .expect("勾了双向且填了值就该落进 config");
    assert_eq!(targets.ab, mbps(1000.0));
    assert_eq!(targets.ba, mbps(800.0));
    assert_eq!(targets.forward, None, "双向门限没有 forward 这个概念");

    let mut one_way = request();
    one_way.pairs[0].directions = vec!["ab".into()];
    assert!(config_from_request(&state, &one_way).tests[0]
        .rate_targets_bidir_mbps
        .is_none());
}

#[test]
fn a_bidirectional_threshold_without_the_bidirectional_box_is_rejected() {
    let state = state_with_pair();
    let mut req = request();
    req.pairs[0].directions = vec!["ab".into()];
    req.pairs[0].rx_target_bidir_ab = "1000".into();

    let error = validate_request(&state, &req).expect_err("必须报错");
    assert!(error.contains("双向"), "{error}");
}

#[test]
fn a_percentage_bidirectional_threshold_is_rejected_with_the_reason() {
    let state = state_with_pair();
    let mut req = request();
    req.pairs[0].directions = vec!["bidir".into()];
    req.pairs[0].rx_target_bidir_ab = "50%".into();

    let error = validate_request(&state, &req).expect_err("百分比必须被拒");
    assert!(error.contains("绝对 Mbps"), "错误要说清为什么：{error}");

    req.pairs[0].rx_target_bidir_ab = "1000".into();
    assert!(validate_request(&state, &req).is_ok(), "绝对值要放行");
}

#[test]
fn the_plan_renders_bandwidth_in_mbps() {
    let args =
        |items: &[&str]| -> Vec<String> { items.iter().map(|item| item.to_string()).collect() };
    assert_eq!(
        readable_args(&args(&["-b", "1000000000", "-l", "1200"])),
        "-b 1000 Mbps -l 1200"
    );
    assert_eq!(
        readable_args(&args(&["-b", "2600500000"])),
        "-b 2600.5 Mbps"
    );
    assert_eq!(
        readable_args(&args(&["-w", "4m", "-P", "10"])),
        "-w 4m -P 10"
    );
}

#[test]
fn a_bandwidth_that_is_off_by_a_million_is_rejected() {
    let state = state_with_pair();
    let mut req = request();
    req.udp_bandwidths = vec!["1000000000".into()];
    let error = validate_request(&state, &req).expect_err("必须报错");
    assert!(
        error.contains("按 Mbps 算"),
        "错误要说清是单位填错了：{error}"
    );

    for ok in ["1000m", "1G", "1000mbps"] {
        let mut req = request();
        req.udp_bandwidths = vec![ok.into()];
        assert!(validate_request(&state, &req).is_ok(), "{ok} 应当合法");
    }
}

#[test]
fn the_plan_shows_the_parameters_each_leg_will_actually_use() {
    let state = state_with_pair();
    let mut req = request();
    req.nic_policies.clear();
    req.udp_bandwidths = vec!["500m".into()];
    req.udp_lengths = vec!["1200".into()];
    req.udp_streams = 3;
    req.pairs[0].directions = vec!["ab".into()];
    req.pairs[0].transports = vec!["udp".into()];
    let cfg = validated_config_from_request(&state, &req).unwrap();

    let units = units_of(&state, &cfg);
    let lines = unit_load_lines(&units[0]);

    assert_eq!(lines.len(), 1, "单向单元只有一条腿");
    assert!(lines[0].contains("-b 500 Mbps"), "{lines:?}");
    assert!(lines[0].contains("-l 1200"), "{lines:?}");
    assert!(lines[0].contains("×3 流"), "{lines:?}");
    assert!(
        lines[0].starts_with("A→B "),
        "单向单元的参数行要带方向：{lines:?}"
    );
}

#[test]
fn the_preview_labels_the_direction_of_every_unit() {
    let state = state_with_pair();
    let mut req = request();
    req.udp_bandwidths = vec!["500m".into()];
    req.udp_streams = 1;
    req.pairs[0].transports = vec!["udp".into()];

    for (direction, expected) in [("ab", "A→B "), ("ba", "B→A "), ("bidir", "")] {
        req.pairs[0].directions = vec![direction.into()];
        let cfg = validated_config_from_request(&state, &req).unwrap();
        let units = units_of(&state, &cfg);
        let lines = unit_load_lines(&units[0]);
        assert!(!lines.is_empty(), "{direction} 应当有参数行");
        if direction == "bidir" {
            assert!(
                lines.iter().any(|line| line.starts_with("A→B "))
                    && lines.iter().any(|line| line.starts_with("B→A ")),
                "双向单元两条腿要分别标出方向：{lines:?}"
            );
        } else {
            assert!(
                lines.iter().all(|line| line.starts_with(expected)),
                "{direction} 的参数行要以 {expected:?} 开头：{lines:?}"
            );
        }
    }
}

#[test]
fn each_row_runs_the_udp_group_it_points_at() {
    let state = state_with_two_pairs();
    let mut req = request();
    req.nic_policies.clear();
    req.udp_bandwidths = vec!["1m".into()];
    req.udp_lengths = Vec::new();
    req.udp_streams = 2;
    req.udp_groups = vec![
        UdpGroup {
            name: "单流打满".into(),
            bandwidths: vec!["2500m".into()],
            lengths: vec!["64".into()],
            windows: Vec::new(),
            streams: 1,
        },
        UdpGroup {
            name: "多流".into(),
            bandwidths: vec!["1000m".into(), "500m".into()],
            lengths: Vec::new(),
            windows: Vec::new(),
            streams: 4,
        },
    ];
    req.pairs[0].directions = vec!["ab".into()];
    req.pairs[0].udp_groups = vec![1];
    let mut second = req.pairs[0].clone();
    second.src = "master:NAME=以太网 7".into();
    second.dst = "agent:NAME=USB 4".into();
    second.udp_groups = vec![2];
    let mut third = req.pairs[0].clone();
    third.src = "master:NAME=以太网 6".into();
    third.dst = "agent:NAME=USB 4".into();
    third.udp_groups = vec![0];
    req.pairs.push(second);
    req.pairs.push(third);

    let cfg = validated_config_from_request(&state, &req).expect("三行都该合法");
    let spec = |name: &str| {
        cfg.tests
            .iter()
            .find(|test| test.name == name)
            .unwrap_or_else(|| panic!("找不到单元 {name}"))
    };
    let profiles = |name: &str| -> Vec<(String, Option<String>)> {
        spec(name)
            .udp_profiles
            .as_ref()
            .unwrap()
            .iter()
            .map(|profile| (profile.bandwidth.clone(), profile.length.clone()))
            .collect()
    };

    assert_eq!(
        profiles("ui-1-udp-g2"),
        vec![("2500m".into(), Some("64".into()))]
    );
    assert_eq!(spec("ui-1-udp-g2").udp_streams, Some(1));
    assert_eq!(
        profiles("ui-2-udp-g3"),
        vec![("1000m".into(), None), ("500m".into(), None)],
        "组里没填 -l 就是不下发，不继承默认组"
    );
    assert_eq!(spec("ui-2-udp-g3").udp_streams, Some(4));
    assert_eq!(
        profiles("ui-3-udp"),
        vec![("1m".into(), None)],
        "没选组的行跑默认组，单元名不带后缀"
    );
    assert_eq!(spec("ui-3-udp").udp_streams, Some(2));
    assert_eq!(
        cfg.iperf
            .udp_profiles
            .iter()
            .map(|profile| profile.bandwidth.clone())
            .collect::<Vec<_>>(),
        vec!["1m"]
    );
}

#[test]
fn one_row_can_run_several_groups() {
    let state = state_with_pair();
    let mut req = request();
    req.nic_policies.clear();
    req.udp_bandwidths = vec!["1000m".into()];
    req.udp_streams = 4;
    req.udp_groups = vec![UdpGroup {
        name: "慢速单流".into(),
        bandwidths: vec!["1m".into()],
        lengths: Vec::new(),
        windows: Vec::new(),
        streams: 1,
    }];
    req.pairs[0].directions = vec!["ab".into()];
    req.pairs[0].transports = vec!["udp".into()];
    req.pairs[0].udp_groups = vec![0, 1];

    let cfg = validated_config_from_request(&state, &req).unwrap();
    let udp: Vec<&TestSpec> = cfg
        .tests
        .iter()
        .filter(|test| test.transports.iter().any(|t| t == "udp"))
        .collect();
    assert_eq!(udp.len(), 2, "两组 = 两批单元");
    assert_eq!(udp[0].name, "ui-1-udp");
    assert_eq!(udp[0].udp_streams, Some(4));
    assert_eq!(
        udp[1].name, "ui-1-udp-g2",
        "组号进单元名，resume id 才不撞车"
    );
    assert_eq!(udp[1].udp_streams, Some(1));

    req.pairs[0].udp_groups = vec![1, 1, 0];
    let cfg = validated_config_from_request(&state, &req).unwrap();
    assert_eq!(
        cfg.tests
            .iter()
            .filter(|test| test.transports.iter().any(|t| t == "udp"))
            .count(),
        2
    );

    req.pairs[0].udp_groups = Vec::new();
    let cfg = validated_config_from_request(&state, &req).unwrap();
    let udp: Vec<&TestSpec> = cfg
        .tests
        .iter()
        .filter(|test| test.transports.iter().any(|t| t == "udp"))
        .collect();
    assert_eq!(udp.len(), 1);
    assert_eq!(udp[0].name, "ui-1-udp");
}

#[test]
fn a_group_that_would_run_nothing_is_rejected() {
    let state = state_with_pair();

    let mut req = request();
    req.udp_groups = vec![UdpGroup {
        name: String::new(),
        bandwidths: Vec::new(),
        lengths: vec!["64".into()],
        windows: Vec::new(),
        streams: 1,
    }];
    let error = validate_request(&state, &req).expect_err("没填 -b 必须报错");
    assert!(error.contains("没填 -b"), "{error}");

    let mut req = request();
    req.udp_groups = vec![UdpGroup {
        name: String::new(),
        bandwidths: vec!["2500m".into()],
        lengths: Vec::new(),
        windows: Vec::new(),
        streams: 1,
    }];
    req.pairs[0].udp_groups = vec![1];
    req.pairs[0].transports = vec!["tcp".into()];
    let error = validate_request(&state, &req).expect_err("没勾 UDP 必须报错");
    assert!(error.contains("没有勾 UDP"), "{error}");

    let mut req = request();
    req.pairs[0].udp_groups = vec![3];
    let error = validate_request(&state, &req).expect_err("越界必须报错");
    assert!(error.contains("不存在"), "{error}");

    let mut req = request();
    req.udp_groups = vec![UdpGroup {
        name: "很快组".into(),
        bandwidths: vec!["很快".into()],
        lengths: Vec::new(),
        windows: Vec::new(),
        streams: 1,
    }];
    let error = validate_request(&state, &req).expect_err("必须报错");
    assert!(error.contains("很快组"), "{error}");
}

#[test]
fn clearing_udp_length_and_window_emits_no_such_flags() {
    let state = state_with_pair();
    let mut req = request();
    req.udp_lengths = Vec::new();
    req.udp_windows = Vec::new();
    req.udp_bandwidths = vec!["1000m".into()];
    req.nic_policies.clear();

    let cfg = validated_config_from_request(&state, &req).unwrap();
    assert!(
        cfg.iperf
            .udp_profiles
            .iter()
            .all(|profile| profile.length.is_none() && profile.window.is_none()),
        "全局档位不该凭空长出 -l / -w"
    );
    let pair_profiles = cfg
        .tests
        .iter()
        .filter_map(|test| test.udp_profiles.as_ref())
        .flatten();
    for profile in pair_profiles {
        assert!(
            profile.length.is_none() && profile.window.is_none(),
            "逐对档位也不该凭空长出 -l / -w：{profile:?}"
        );
    }
}

#[test]
fn the_printed_address_is_one_a_browser_can_actually_open() {
    assert_eq!(display_addr("0.0.0.0", 28800), "127.0.0.1:28800");
    assert_eq!(display_addr("::", 28800), "[::1]:28800");
    assert_eq!(display_addr("[::]", 28800), "[::1]:28800");
    assert_eq!(display_addr(" 0.0.0.0 ", 28800), "127.0.0.1:28800");
    assert_eq!(display_addr("127.0.0.1", 28800), "127.0.0.1:28800");
    assert_eq!(display_addr("192.168.8.101", 28800), "192.168.8.101:28800");
    assert_eq!(display_addr("::1", 28800), "[::1]:28800");
    assert!(bind_is_wildcard("0.0.0.0") && bind_is_wildcard("::"));
    assert!(!bind_is_wildcard("127.0.0.1") && !bind_is_wildcard("192.168.8.101"));
}

#[test]
fn checking_ping_passes_validation_alone_and_alongside_tcp_udp() {
    let state = state_with_pair();
    for transports in [
        vec!["ping".to_string()],
        vec!["tcp".to_string(), "udp".to_string(), "ping".to_string()],
    ] {
        let mut req = request();
        req.pairs[0].transports = transports.clone();
        if let Err(error) = validate_request(&state, &req) {
            panic!("{transports:?} 必须通过校验，却被拒：{error}");
        }
    }

    let mut bogus = request();
    bogus.pairs[0].transports = vec!["icmp".into()];
    assert!(
        validate_request(&state, &bogus).is_err(),
        "白名单之外的写法仍要挡住"
    );
}

#[test]
fn repeated_ping_payload_sizes_collapse_even_when_not_adjacent() {
    let state = state_with_pair();
    let mut req = request();
    req.pairs[0].transports = vec!["ping".into()];
    req.ping_payload_sizes = vec![1600, 32, 1600, 0, 32];

    let cfg = config_from_request(&state, &req);
    let ping = cfg
        .tests
        .iter()
        .find(|t| t.kinds.iter().any(|k| k == "ping"))
        .expect("应有 ping 测试项");
    assert_eq!(
        ping.ping_payload_sizes.as_deref(),
        Some(&[1600u32, 32][..]),
        "重复档位只留一份，且保持用户填的顺序"
    );
}

#[test]
fn an_oversized_ping_budget_is_rejected_before_starting_a_run() {
    let state = state_with_pair();
    let mut req = request();
    req.pairs[0].transports = vec!["ping".into()];

    req.ping_payload_sizes = vec![32, MAX_PAYLOAD + 1];
    let error = validate_request(&state, &req).expect_err("越界包长必须被拒");
    assert!(error.contains("65500"), "错误里要写清上限：{error}");

    req.ping_payload_sizes = vec![MAX_PAYLOAD];
    assert!(validate_request(&state, &req).is_ok(), "正好在上限上要放行");

    req.ping_count = 100_001;
    assert!(
        validate_request(&state, &req).is_err(),
        "次数同样会被 builder 静默夹紧，也要在这里挡住"
    );
}

#[test]
fn the_constant_time_compare_still_agrees_with_equality() {
    assert!(secret_eq("s3cret", "s3cret"));
    assert!(!secret_eq("s3cret", "s3creT"));
    assert!(!secret_eq("s3cret", "s3cre"), "短一截也不算对");
    assert!(!secret_eq("s3cret", ""));
    assert!(secret_eq("", ""));
    assert!(secret_eq("口令", "口令"), "多字节口令按字节比也要相等");
}

#[test]
fn the_console_decides_resume_regardless_of_the_config_file() {
    let mut state = state_with_pair();
    state.cfg.resume = true;

    let req = request();
    assert!(
        !config_from_request(&state, &req).resume,
        "界面没勾就不跳过，配置文件里的 true 不能悄悄生效"
    );

    let mut on = request();
    on.resume = true;
    assert!(config_from_request(&state, &on).resume);
}

#[test]
fn an_impossible_datagram_size_is_rejected_before_starting_a_run() {
    let state = state_with_pair();
    let mut req = request();
    req.udp_lengths = vec!["70000".into()];
    let error = validated_config_from_request(&state, &req).unwrap_err();
    assert!(error.contains("65507"), "{error}");

    req.udp_lengths = vec!["1400x".into()];
    let error = validated_config_from_request(&state, &req).unwrap_err();
    assert!(error.contains("UDP -l"), "{error}");
}

#[test]
fn udp_socket_buffer_steps_join_the_same_cross_product() {
    let state = state_with_pair();
    let mut req = request();
    req.pairs[0].transports = vec!["udp".into()];
    req.pairs[0].directions = vec!["ab".into()];
    req.nic_policies
        .iter_mut()
        .for_each(|p| p.udp_bandwidth.clear());
    req.udp_bandwidths = vec!["500m".into()];
    req.udp_lengths = vec!["64".into(), "1400".into()];
    req.udp_windows = vec!["2m".into(), "8m".into()];

    let cfg = config_from_request(&state, &req);
    let udp = cfg
        .tests
        .iter()
        .find(|t| t.transports.contains(&"udp".to_string()))
        .expect("应有 UDP spec");
    let mut labels: Vec<String> = udp
        .udp_profiles
        .as_ref()
        .expect("应有档位")
        .iter()
        .map(|p| label(p))
        .collect();
    labels.sort();
    assert_eq!(
        labels,
        vec![
            "UDP -b 500m -l 1400 -w 2m",
            "UDP -b 500m -l 1400 -w 8m",
            "UDP -b 500m -l 64 -w 2m",
            "UDP -b 500m -l 64 -w 8m",
        ],
        "1 档 -b × 2 档 -l × 2 档 -w = 4 档"
    );

    assert_eq!(cfg.iperf.tcp_windows, vec!["2m", "4m", "256m"]);

    let units = units_of(&state, &cfg);
    let mut seen_windows: Vec<String> = Vec::new();
    for unit in &units {
        for leg in &unit.legs {
            let tasks: Vec<&IperfTask> = match &leg.kind {
                LegKind::IperfSingle(task) => vec![task],
                LegKind::IperfGroup(streams) => streams.iter().collect(),
                _ => Vec::new(),
            };
            for task in tasks {
                let at = task
                    .extra
                    .iter()
                    .position(|arg| arg == "-w")
                    .unwrap_or_else(|| panic!("每条 UDP 命令都要带 -w: {:?}", task.extra));
                seen_windows.push(task.extra[at + 1].clone());
            }
        }
    }
    seen_windows.sort();
    seen_windows.dedup();
    assert_eq!(seen_windows, vec!["2m", "8m"]);
}

#[test]
fn blank_udp_extras_add_no_flags_to_the_command() {
    let state = state_with_pair();
    let mut req = request();
    req.pairs[0].transports = vec!["udp".into()];
    req.pairs[0].directions = vec!["ab".into()];
    req.nic_policies
        .iter_mut()
        .for_each(|p| p.udp_bandwidth.clear());
    req.udp_bandwidths = vec!["500m".into()];
    req.udp_lengths = Vec::new();
    req.udp_windows = Vec::new();

    let cfg = config_from_request(&state, &req);
    let profiles = cfg
        .tests
        .iter()
        .find(|t| t.transports.contains(&"udp".to_string()))
        .and_then(|t| t.udp_profiles.clone())
        .expect("应有档位");
    assert_eq!(profiles.len(), 1);
    assert_eq!(label(&profiles[0]), "UDP -b 500m");
    assert!(profiles[0].length.is_none() && profiles[0].window.is_none());
}

#[test]
fn repeated_profile_extras_collapse_when_filling_the_form() {
    assert_eq!(
        distinct(["2m", "8m", "2m", "8m"].iter().map(|v| v.to_string())),
        vec!["2m", "8m"]
    );
}

#[test]
fn an_invalid_udp_socket_buffer_is_rejected_before_starting_a_run() {
    let state = state_with_pair();
    let mut req = request();
    req.udp_windows = vec!["8毫米".into()];
    let error = validated_config_from_request(&state, &req).unwrap_err();
    assert!(error.contains("UDP -w"), "{error}");
}

#[test]
fn the_threshold_field_takes_both_mbps_and_percent() {
    assert_eq!(parse_rx_target("1800"), Ok(Some(RxTarget::Mbps(double(1800.0)))));
    assert_eq!(
        parse_rx_target(" 1800.5 "),
        Ok(Some(RxTarget::Mbps(double(1800.5))))
    );
    assert_eq!(parse_rx_target("90%"), Ok(Some(RxTarget::Percent(double(90.0)))));
    assert_eq!(parse_rx_target("90 %"), Ok(Some(RxTarget::Percent(double(90.0)))));
    assert_eq!(parse_rx_target(""), Ok(None));
    assert_eq!(parse_rx_target("   "), Ok(None));

    assert!(parse_rx_target("0").is_err(), "0 不是门限");
    assert!(parse_rx_target("-5").is_err());
    assert!(parse_rx_target("很快").is_err());
    assert!(
        parse_rx_target("900%").is_err(),
        "三位数百分比几乎一定是把 Mbps 写成了百分号"
    );
}

#[test]
fn percent_and_absolute_thresholds_land_in_different_fields() {
    let mut req = request();
    req.nic_policies[0].rx_target = "90%".into();
    req.nic_policies[1].rx_target = "1600".into();
    let cfg = config_from_request(&state_with_pair(), &req);

    let by_percent = cfg
        .link_profiles
        .by_nic
        .iter()
        .find(|p| p.name == "以太网 6")
        .expect("主控网卡");
    assert_eq!(by_percent.rx_target_percent, mbps(90.0));
    assert_eq!(by_percent.rx_target_mbps, None);

    let absolute = cfg
        .link_profiles
        .by_nic
        .iter()
        .find(|p| p.name == "WLAN 3")
        .expect("辅测网卡");
    assert_eq!(absolute.rx_target_mbps, mbps(1600.0));
    assert_eq!(absolute.rx_target_percent, None);
}

#[test]
fn a_per_nic_datagram_size_overrides_the_global_step() {
    let state = state_with_pair();
    let mut req = request();
    req.pairs[0].transports = vec!["udp".into()];
    req.pairs[0].directions = vec!["ab".into(), "ba".into()];
    req.udp_bandwidths = vec!["100m".into()];
    req.udp_lengths = vec!["1400".into()];
    req.nic_policies[0].udp_length = "64".into();
    req.nic_policies[1].udp_length.clear();

    let cfg = config_from_request(&state, &req);
    let units = units_of(&state, &cfg);

    let mut by_sender: Vec<(String, String)> = Vec::new();
    for unit in &units {
        for leg in &unit.legs {
            let tasks: Vec<&IperfTask> = match &leg.kind {
                LegKind::IperfSingle(task) => vec![task],
                LegKind::IperfGroup(streams) => streams.iter().collect(),
                _ => Vec::new(),
            };
            for task in tasks {
                let at = task
                    .extra
                    .iter()
                    .position(|arg| arg == "-l")
                    .unwrap_or_else(|| panic!("应带 -l: {:?}", task.extra));
                by_sender.push((task.src.nic.name.clone(), task.extra[at + 1].clone()));
            }
        }
    }
    by_sender.sort();
    by_sender.dedup();
    assert_eq!(
        by_sender,
        vec![
            ("WLAN 3".to_string(), "1400".to_string()),
            ("以太网 6".to_string(), "64".to_string()),
        ],
        "发送口填了 -l 就用它的，没填的那条腿仍走全局档位"
    );

    assert!(
        units.iter().any(|u| u.title.contains("-l 64")),
        "{:?}",
        units.iter().map(|u| &u.title).collect::<Vec<_>>()
    );
}

#[test]
fn a_per_nic_datagram_size_alone_does_not_pin_the_bandwidth() {
    let mut req = request();
    req.pairs[0].transports = vec!["udp".into()];
    req.pairs[0].directions = vec!["ab".into()];
    req.nic_policies
        .iter_mut()
        .for_each(|p| p.udp_bandwidth.clear());
    req.nic_policies[0].udp_length = "64".into();
    req.udp_bandwidths = vec!["1m".into(), "500m".into(), "1G".into()];

    let cfg = config_from_request(&state_with_pair(), &req);
    let udp = cfg
        .tests
        .iter()
        .find(|t| t.transports.contains(&"udp".to_string()))
        .expect("应有 UDP spec");
    assert_eq!(
        udp.udp_profiles.as_ref().map(Vec::len),
        Some(3),
        "-b 没被覆盖，三个档位都要跑"
    );
}

#[test]
fn a_lone_datagram_size_still_produces_an_override() {
    let mut req = request();
    for policy in &mut req.nic_policies {
        policy.rx_target.clear();
        policy.udp_bandwidth.clear();
        policy.udp_length.clear();
    }
    req.nic_policies[0].udp_length = "64".into();
    let cfg = config_from_request(&state_with_pair(), &req);
    assert_eq!(cfg.link_profiles.by_nic.len(), 1);
    assert_eq!(
        cfg.link_profiles.by_nic[0].udp_length.as_deref(),
        Some("64")
    );
}

#[test]
fn a_per_nic_datagram_size_is_bounded_too() {
    let state = state_with_pair();
    let mut req = request();
    req.nic_policies[0].udp_length = "70000".into();
    let error = validated_config_from_request(&state, &req).unwrap_err();
    assert!(error.contains("65507"), "{error}");
}

#[test]
fn the_preview_and_execution_paths_build_the_same_units() {
    let state = state_with_pair();
    let req = suite_request();
    let compiled = compile_request(&state, &req).expect("compile suite plan");
    let canonical = canonical_plan_units(&compiled.cfg, &state);

    assert_eq!(
        canonical.len(),
        compiled.units.len(),
        "两条路径的单元个数不一致：执行端 {} / 预览 {}",
        canonical.len(),
        compiled.units.len()
    );
    for (preview, execution) in compiled.units.iter().zip(canonical.iter()) {
        assert_eq!(
            format!("{preview:?}"),
            format!("{execution:?}"),
            "同一个位置上的单元不一致"
        );
    }
}

#[test]
fn the_baseline_udp_profile_compiles_through_the_real_validator() {
    let state = state_with_pair();
    let mut req = suite_request();
    let plan = req.ui_plan.as_mut().expect("suite plan");
    plan.recipes.udp[0].profiles.clear();
    plan.recipes.udp[0].bandwidths = vec!["2500m".into()];
    plan.recipes.udp[0].lengths = vec!["14k".into()];
    plan.recipes.udp[0].windows = vec!["256m".into()];
    plan.recipes.udp[0].udp_streams = vec![1];
    let cfg =
        validated_config_from_request(&state, &req).expect("基线 TCP+UDP 的出厂档位必须能过校验");
    let udp = cfg
        .tests
        .iter()
        .find(|test| test.transports.iter().any(|t| t == "udp"))
        .expect("应当编译出一条 UDP test");
    let profiles = udp.udp_profiles.as_ref().expect("UDP 档位");
    assert_eq!(profiles.len(), 1, "三条轴各一个值，只该展开成一档");
    assert_eq!(profiles[0].bandwidth, "2500m");
    assert_eq!(profiles[0].length.as_deref(), Some("14k"));
    assert_eq!(profiles[0].window.as_deref(), Some("256m"));
}

// ---------------------------------------------------------------------------
// Import
// ---------------------------------------------------------------------------

fn import(state: &mut UiState, cfg: &Config) -> Result<ImportOut, String> {
    let rd = readings_of(state, texts_of_config(cfg));
    let problems = problems_of(cfg);
    import_config(state, &rd, cfg.clone(), &problems)
}

fn shown(target: Option<Double>) -> String {
    target.map(|t| f64::from_bits(t.bits).to_string()).unwrap_or_default()
}

fn target_text(target: Option<RxTarget>) -> String {
    match target {
        Some(RxTarget::Mbps(t)) => shown(Some(t)),
        Some(RxTarget::Percent(t)) => format!("{}%", shown(Some(t))),
        None => String::new(),
    }
}

#[test]
fn downloading_then_importing_restores_the_same_selection() {
    let mut state = state_with_pair();
    let cfg = config_from_request(&state, &request());
    let out = import(&mut state, &cfg).expect("自己下载的配置必须能导回来");

    let pair = &out.pairs[0];
    assert_eq!(pair.src, "master:NAME=以太网 6");
    assert_eq!(pair.dst, "agent:NAME=WLAN 3");
    assert_eq!(pair.directions, vec!["ab", "bidir"]);
    assert_eq!(pair.transports, vec!["tcp", "udp"]);
    assert_eq!(pair.ip, vec!["v4"]);
    assert_eq!(pair.udp_groups, vec![0], "网口钉死时不认成附加组");
    assert!(out.udp_groups.is_empty(), "不该凭空多出一个由占位值拼成的组");

    let settings = &out.settings;
    assert_eq!(settings.duration, 60);
    assert_eq!(settings.tcp_windows, vec!["2m", "4m", "256m"]);
    assert_eq!(settings.tcp_streams, vec![1, 5, 10]);
    assert_eq!(settings.udp_bandwidths, vec!["1m", "500m", "1G"]);

    let master = out
        .nic_policies
        .iter()
        .find(|policy| policy.endpoint == "master:NAME=以太网 6")
        .expect("主控网口策略");
    assert_eq!(target_text(master.rx_target), "1800");
    assert_eq!(master.udp_bandwidth, "2.6G");
}

#[test]
fn importing_rebuilds_the_udp_groups_from_the_tests() {
    let mut state = state_with_two_pairs();
    let mut req = request();
    req.nic_policies.clear();
    req.udp_bandwidths = vec!["1m".into()];
    req.udp_streams = 2;
    req.udp_groups = vec![UdpGroup {
        name: "多流".into(),
        bandwidths: vec!["1000m".into(), "500m".into()],
        lengths: Vec::new(),
        windows: Vec::new(),
        streams: 4,
    }];
    req.pairs[0].udp_groups = vec![1];
    let mut second = req.pairs[0].clone();
    second.src = "master:NAME=以太网 7".into();
    second.dst = "agent:NAME=USB 4".into();
    second.udp_groups = vec![0];
    req.pairs.push(second);
    let cfg = config_from_request(&state, &req);

    let out = import(&mut state, &cfg).unwrap();
    assert_eq!(out.udp_groups.len(), 1, "只有一种和默认组不同的打法");
    assert_eq!(out.udp_groups[0].bandwidths, vec!["1000m", "500m"]);
    assert_eq!(out.udp_groups[0].streams, 4);
    assert_eq!(out.pairs[0].udp_groups, vec![1], "第一行选那一组");
    assert_eq!(out.pairs[1].udp_groups, vec![0], "第二行留在默认组");
    assert_eq!(out.settings.udp_bandwidths, vec!["1m"]);
    assert_eq!(out.settings.udp_streams, 2);
}

#[test]
fn importing_keeps_udp_group_for_unpinned_direction() {
    let mut state = state_with_pair();
    let mut req = request();
    req.nic_policies = vec![NicPolicySelection {
        endpoint: "master:NAME=以太网 6".into(),
        rx_target: String::new(),
        udp_bandwidth: "3m".into(),
        udp_length: String::new(),
    }];
    req.udp_bandwidths = vec!["1m".into()];
    req.udp_lengths = vec!["1200".into()];
    req.udp_streams = 1;
    req.udp_groups = vec![UdpGroup {
        name: "高带宽".into(),
        bandwidths: vec!["500m".into()],
        lengths: vec!["1200".into()],
        windows: Vec::new(),
        streams: 1,
    }];
    req.pairs[0].transports = vec!["udp".into()];
    req.pairs[0].directions = vec!["ab".into(), "ba".into()];
    req.pairs[0].udp_groups = vec![1];

    let cfg = validated_config_from_request(&state, &req).expect("原始配置必须合法");
    let runs = |dir: &str, bandwidth: &str| {
        cfg.tests.iter().any(|test| {
            directions(&test.direction) == vec![dir.to_string()]
                && test.udp_profiles.as_ref().is_some_and(|p| p[0].bandwidth == bandwidth)
        })
    };
    assert!(runs("ab", "3m"));
    assert!(runs("ba", "500m"));

    let out = import(&mut state, &cfg).expect("混合固定/扫描方向必须能导入");
    assert_eq!(out.udp_groups[0].bandwidths, vec!["500m"]);
    assert_eq!(out.pairs[0].udp_groups, vec![1]);
}

fn pair_selection(pair: &PairImport) -> PairSelection {
    PairSelection {
        src: pair.src.clone(),
        dst: pair.dst.clone(),
        directions: pair.directions.clone(),
        rx_target_bidir_ab: shown(pair.rx_target_bidir_ab),
        rx_target_bidir_ba: shown(pair.rx_target_bidir_ba),
        rx_target_bidir_total: String::new(),
        udp_groups: pair.udp_groups.clone(),
        tcp_groups: pair.tcp_groups.clone(),
        transports: pair.transports.clone(),
        ip: pair.ip.clone(),
    }
}

fn request_from_import(out: &ImportOut) -> RunRequest {
    RunRequest {
        pairs: out.pairs.iter().map(pair_selection).collect(),
        nic_policies: out
            .nic_policies
            .iter()
            .map(|policy| NicPolicySelection {
                endpoint: policy.endpoint.clone(),
                rx_target: target_text(policy.rx_target),
                udp_bandwidth: policy.udp_bandwidth.clone(),
                udp_length: policy.udp_length.clone(),
            })
            .collect(),
        duration: out.settings.duration,
        tcp_windows: out.settings.tcp_windows.clone(),
        tcp_streams: out.settings.tcp_streams.clone(),
        udp_bandwidths: out.settings.udp_bandwidths.clone(),
        udp_lengths: out.settings.udp_lengths.clone(),
        udp_windows: out.settings.udp_windows.clone(),
        udp_streams: out.settings.udp_streams,
        udp_groups: out
            .udp_groups
            .iter()
            .map(|group| UdpGroup {
                name: group.name.clone(),
                bandwidths: group.bandwidths.clone(),
                lengths: group.lengths.clone(),
                windows: group.windows.clone(),
                streams: group.streams,
            })
            .collect(),
        tcp_groups: out
            .tcp_groups
            .iter()
            .map(|group| TcpGroup {
                name: group.name.clone(),
                windows: group.windows.clone(),
                streams: group.streams.clone(),
            })
            .collect(),
        ping_count: out.settings.ping_count,
        ping_payload_sizes: out.settings.ping_payload_sizes.clone(),
        limit_udp_by_link_speed: out.limit_udp_by_link_speed,
        resume: out.resume,
        screenshot: out.settings.screenshot,
        ..Default::default()
    }
}

fn units_debug(cfg: &Config, state: &UiState) -> String {
    let (specs, units, _) = built(state, cfg);
    assert!(specs.iter().all(|spec| spec.is_ok()));
    assert!(!units.is_empty(), "这份配置一个单元都没生成");
    format!("{units:#?}")
}

#[test]
fn download_import_download_runs_the_same_units() {
    let state = state_with_two_pairs();
    let mut req = request();
    req.nic_policies.clear();
    req.udp_bandwidths = vec!["1m".into()];
    req.udp_lengths = vec!["1200".into()];
    req.udp_streams = 2;
    req.udp_groups = vec![UdpGroup {
        name: "单流".into(),
        bandwidths: vec!["2500m".into()],
        lengths: vec!["1200".into()],
        windows: Vec::new(),
        streams: 1,
    }];
    req.pairs[0].udp_groups = vec![1];
    req.pairs[0].rx_target_bidir_ab = "1000".into();
    let mut second = req.pairs[0].clone();
    second.src = "master:NAME=以太网 7".into();
    second.dst = "agent:NAME=USB 4".into();
    req.udp_groups.push(UdpGroup {
        name: "多流".into(),
        bandwidths: vec!["1000m".into(), "500m".into()],
        lengths: vec!["1200".into()],
        windows: Vec::new(),
        streams: 4,
    });
    second.udp_groups = vec![2];
    second.rx_target_bidir_ab = String::new();
    second.transports = vec!["udp".into(), "ping".into()];
    req.pairs.push(second);

    let first = validated_config_from_request(&state, &req).expect("原始配置必须合法");

    let mut console = state_with_two_pairs();
    let out = import(&mut console, &first).expect("必须能导回来");
    let replayed = request_from_import(&out);
    let second_pass =
        validated_config_from_request(&console, &replayed).expect("回填出来的必须仍然合法");

    assert_eq!(
        units_debug(&first, &state),
        units_debug(&second_pass, &state),
        "导入一轮之后跑的必须还是同一批单元"
    );
    let dump = units_debug(&first, &state);
    assert!(dump.contains("2500m"), "第一行的逐对档位");
    assert!(dump.contains("1000m") && dump.contains("500m"), "第二行的两档");
}

#[test]
fn tcp_groups_download_import_runs_the_same_units() {
    let state = state_with_two_pairs();
    let mut req = request();
    req.nic_policies.clear();
    req.tcp_windows = vec!["4m".into(), "256m".into()];
    req.tcp_streams = vec![1, 10];
    req.tcp_groups = vec![
        TcpGroup {
            name: "大窗".into(),
            windows: vec!["512m".into()],
            streams: vec![1],
        },
        TcpGroup {
            name: "裸窗".into(),
            windows: Vec::new(),
            streams: vec![1, 4],
        },
    ];
    req.pairs[0].transports = vec!["tcp".into()];
    req.pairs[0].directions = vec!["ab".into()];
    req.pairs[0].rx_target_bidir_ab = String::new();
    req.pairs[0].udp_groups = Vec::new();
    req.pairs[0].tcp_groups = vec![0, 1];
    let mut second = req.pairs[0].clone();
    second.src = "master:NAME=以太网 7".into();
    second.dst = "agent:NAME=USB 4".into();
    second.tcp_groups = vec![2];
    req.pairs.push(second);

    let first = validated_config_from_request(&state, &req).expect("原始配置必须合法");
    let mut console = state_with_two_pairs();
    let out = import(&mut console, &first).expect("必须能导回来");
    let replayed = request_from_import(&out);
    let second_pass =
        validated_config_from_request(&console, &replayed).expect("回填出来的必须仍然合法");

    assert_eq!(
        units_debug(&first, &state),
        units_debug(&second_pass, &state),
        "TCP 组导入一轮之后跑的必须还是同一批单元"
    );
    let dump = units_debug(&first, &state);
    assert!(dump.contains("512m"), "组1 的 -w 档位应出现在单元里");
    assert!(dump.contains("TCP -P 4"), "裸窗组应生成一条不带 -w 的 TCP 单元");
}

#[test]
fn importing_does_not_multiply_the_udp_bandwidth_steps() {
    let mut state = state_with_pair();
    let mut req = request();
    req.udp_lengths = vec!["1200".into(), "1400".into()];
    let cfg = config_from_request(&state, &req);
    assert_eq!(cfg.iperf.udp_profiles.len(), 6, "3 档 -b × 2 档 -l");

    let out = import(&mut state, &cfg).unwrap();
    assert_eq!(out.settings.udp_bandwidths, vec!["1m", "500m", "1G"]);
    assert_eq!(out.settings.udp_lengths, vec!["1200", "1400"]);
}

#[test]
fn importing_reads_the_ping_settings_off_the_tests() {
    let mut state = state_with_pair();
    let mut req = request();
    req.pairs[0].transports = vec!["ping".into()];
    req.ping_count = 50;
    req.ping_payload_sizes = vec![64];
    let cfg = config_from_request(&state, &req);

    let out = import(&mut state, &cfg).unwrap();
    assert_eq!(out.settings.ping_count, 50);
    assert_eq!(out.settings.ping_payload_sizes, vec![64]);
    assert_eq!(out.pairs[0].transports, vec!["ping"]);
}

#[test]
fn importing_folds_a_reversed_pair_into_one_row() {
    let mut state = state_with_pair();
    let mut cfg = config_from_request(&state, &request());
    let udp = cfg
        .tests
        .iter_mut()
        .find(|test| test.transports.iter().any(|t| t == "udp"))
        .expect("UDP 那条");
    std::mem::swap(&mut udp.src, &mut udp.dst);
    udp.direction = OneOrMany::Many(vec!["A->B".into()]);
    udp.rate_targets_bidir_mbps = Some(RateTargets {
        forward: None,
        ab: mbps(900.0),
        ba: None,
    });

    let out = import(&mut state, &cfg).unwrap();
    assert_eq!(out.pairs.len(), 1, "同一对口只占一行");
    let pair = &out.pairs[0];
    assert_eq!(pair.src, "master:NAME=以太网 6", "行的朝向按先出现的那条");
    assert_eq!(
        pair.directions,
        vec!["ab", "bidir", "ba"],
        "反着写的那条里的 A→B，在这一行是 B→A"
    );
    assert_eq!(shown(pair.rx_target_bidir_ba), "900", "双向门限跟着方向一起翻");
    assert_eq!(shown(pair.rx_target_bidir_ab), "");
}

#[test]
fn importing_before_connecting_keeps_the_named_pairs() {
    let mut cfg = config_from_request(&state_with_pair(), &request());
    cfg.tests.push(TestSpec {
        name: "by-role".into(),
        src: "master:SGMII2.5G".into(),
        dst: "agent:WIFI5G".into(),
        ..cfg.tests[0].clone()
    });

    let mut state = UiState {
        cfg: config_default(),
        agent_host: String::new(),
        master: HostInfo::default(),
        agent: HostInfo::default(),
    };
    let out = import(&mut state, &cfg).unwrap();
    assert_eq!(out.pairs.len(), 1, "NAME= 写法不需要实扫就能认");
    assert!(
        out.notices.iter().any(|n| n.contains("SGMII2.5G")),
        "认不出来的端点必须点名，不能默默少一行：{:?}",
        out.notices
    );
}

#[test]
fn importing_a_file_without_a_token_keeps_the_loaded_one() {
    let mut state = state_with_pair();
    state.cfg.agent_token = "loaded-secret".into();

    let mut cfg = config_from_request(&state_with_pair(), &request());
    cfg.agent_token = String::new();
    let out = import(&mut state, &cfg).unwrap();
    assert!(out.settings.token_configured);
    assert_eq!(state.cfg.agent_token, "loaded-secret");
    assert!(
        out.notices.iter().any(|n| n.contains("agent_token")),
        "沿用旧令牌要说一声"
    );

    cfg.agent_token = "from-file".into();
    import(&mut state, &cfg).unwrap();
    assert_eq!(state.cfg.agent_token, "from-file");
}

#[test]
fn importing_rubbish_says_so_instead_of_half_applying_it() {
    let mut state = state_with_pair();
    let mut cfg = config_from_request(&state_with_pair(), &request());
    cfg.iperf.duration = 0;
    let error = import(&mut state, &cfg).expect_err("过不了 validate 的配置不能导进来");
    assert!(error.contains("duration"), "{error}");
    assert_eq!(
        state.cfg.iperf.duration,
        config_default().iperf.duration,
        "被拒的导入不能改动任何现有状态"
    );
}

#[test]
fn importing_a_suite_derived_config_warns_that_the_suite_is_lost() {
    let mut state = state_with_pair();
    let compiled = compile_request(&state, &suite_request()).expect("compile");
    let out = import(&mut state, &compiled.cfg).expect("导入本身仍然要成功");
    let text = out.notices.join(" | ");
    assert!(text.contains("套件"), "{text}");
    assert!(
        text.contains("项目文件") || text.contains("cpe-ui-project"),
        "要告诉用户正路在哪：{text}"
    );

    let plain = Config {
        tests: vec![TestSpec {
            name: "手写的".into(),
            src: "master:NAME=以太网 6".into(),
            dst: "agent:NAME=WLAN 3".into(),
            direction: OneOrMany::One("A->B".into()),
            kinds: vec!["iperf".into()],
            transports: vec!["tcp".into()],
            ip: vec!["v4".into()],
            streams: 1,
            ..Default::default()
        }],
        ..config_default()
    };
    let mut state = state_with_pair();
    let out = import(&mut state, &plain).expect("导入");
    let text = out.notices.join(" | ");
    assert!(!text.contains("套件的任务顺序"), "扁平配置不该报套件丢失：{text}");
}

// ---------------------------------------------------------------------------
// The console
// ---------------------------------------------------------------------------

#[test]
fn bootstrap_reports_token_presence_without_exposing_the_secret() {
    let mut state = state_with_pair();
    state.cfg.agent_token = "do-not-send-to-the-page".into();
    let value = bootstrap_out(&state);
    assert!(value.token_configured);
    assert!(!format!("{value:?}").contains("do-not-send-to-the-page"));
    state.cfg.agent_token.clear();
    assert!(!bootstrap_out(&state).token_configured);
}

#[test]
fn the_console_can_change_which_subnets_show_up() {
    let req = |prefixes: Option<Vec<&str>>| ConnectReq {
        host: "10.0.0.2".into(),
        port: 0,
        token: String::new(),
        ipv4_prefixes: prefixes.map(|list| list.iter().map(|p| p.to_string()).collect()),
    };
    let list: Vec<String> = [" 10.228. ", "172.16.", ""].iter().map(|p| p.to_string()).collect();
    assert_eq!(cleaned_list(&list), vec!["10.228.", "172.16."]);

    let mut state = state_with_pair();
    apply_connect(&mut state, &req(Some(vec![" 10.228. ", "172.16.", ""]))).unwrap();
    assert_eq!(
        state.cfg.ipv4_prefixes,
        vec!["10.228.", "172.16."],
        "手抄进来的空白和空项要清掉"
    );
    apply_connect(&mut state, &req(None)).unwrap();
    assert_eq!(
        state.cfg.ipv4_prefixes,
        vec!["10.228.", "172.16."],
        "没提交就沿用已加载的配置，不能被当成清空"
    );
    apply_connect(&mut state, &req(Some(vec![]))).unwrap();
    assert!(state.cfg.ipv4_prefixes.is_empty(), "清空 = 显式要求列出全部网口");
}

#[test]
fn connecting_takes_over_what_was_given() {
    let mut state = state_with_pair();
    state.agent_host.clear();
    let empty = ConnectReq {
        host: "  ".into(),
        port: 9,
        token: "t".into(),
        ipv4_prefixes: None,
    };
    let error = apply_connect(&mut state, &empty).unwrap_err();
    assert!(error.contains("请先填辅测机 IP"), "{error}");
    assert_eq!((state.cfg.agent_port, state.cfg.agent_token.as_str()), (9, "t"));
    assert_eq!(
        unreachable_text("10.0.0.2", 9, "timeout"),
        "辅测机 10.0.0.2:9 连不上。请确认对方已双击 start_agent.bat，且 9 端口在防火墙放行（timeout）"
    );

    state.cfg.link_profiles = config_from_request(&state_with_pair(), &request()).link_profiles;
    let known = state_with_pair();
    let error =
        finish_connect(&mut state, HostInfo::default(), Err("HTTP 500".into())).unwrap_err();
    assert_eq!(error, "已连上辅测机，但获取网卡失败: HTTP 500");
    assert_eq!(state.master.interfaces.len(), 1);
    let policies = finish_connect(&mut state, known.master, Ok(HostInfo::default())).unwrap();
    assert_eq!(policies.len(), 1);
    assert!(state.agent.interfaces.is_empty());
    let both = state_with_pair();
    assert_eq!(configured_nic_policies(&state.cfg, &both.master, &both.agent).len(), 2);
}

#[test]
fn replies_are_framed_and_read() {
    assert_eq!(
        err_json("坏\"了\n"),
        "{\"ok\":false,\"error\":\"坏\\\"了\\n\",\"data\":null}"
    );
    assert_eq!(
        err_json("\u{8}\t\u{c}\r\u{0}\u{1f}\u{7f}/\\"),
        "{\"ok\":false,\"error\":\"\\b\\t\\f\\r\\u0000\\u001f\u{7f}/\\\\\",\"data\":null}"
    );
    let value: serde_json::Value = serde_json::from_str(&err_json("a\\b\u{1}")).unwrap();
    assert_eq!(value["error"], "a\\b\u{1}");
    assert_eq!(ok_json(Ok("[1]".into())), "{\"ok\":true,\"error\":null,\"data\":[1]}");
    assert_eq!(ok_json(Err("e".into())), err_json("序列化失败: e"));

    let resp = |ok: bool, error: Option<&str>, data: Option<u32>| {
        Ok(Resp {
            ok,
            error: error.map(|e| e.to_string()),
            data,
        })
    };
    assert_eq!(accept_reply(200, resp(true, None, Some(7))), Ok(7));
    assert_eq!(accept_reply(200, resp(true, None, None)), Err("响应缺 data".to_string()));
    assert_eq!(accept_reply(200, resp(false, None, Some(7))), Err("未知错误".to_string()));
    assert_eq!(accept_reply(200, resp(false, Some("no"), None)), Err("no".to_string()));
    assert_eq!(accept_reply(500, resp(true, None, Some(7))), Err("HTTP 500".to_string()));
    assert!(accept_reply(401, resp(true, None, Some(7))).unwrap_err().contains("令牌"));
    let unread: Result<Resp<u32>, String> = Err("eof".into());
    assert_eq!(accept_reply(200, unread), Err("响应解析失败: eof".to_string()));
}

fn console_request(method: Method, url: &str, headers: &[(&str, &str)]) -> ConsoleRequest {
    ConsoleRequest {
        method,
        url: url.into(),
        headers: headers
            .iter()
            .map(|(name, value)| HeaderLine {
                name: name.to_string(),
                value: value.to_string(),
            })
            .collect(),
    }
}

#[test]
fn the_console_token_gate_covers_both_the_page_and_the_api() {
    let to = |url: &str, headers: &[(&str, &str)]| {
        route("unit-secret", &console_request(Method::Get, url, headers))
    };
    assert!(matches!(to("/", &[]), Route::Refused), "页面本身也必须要口令");
    assert!(matches!(to("/api/local", &[]), Route::Refused), "不带口令的 API 必须 401");
    assert!(matches!(
        to("/api/local", &[("Authorization", "Bearer wrong")]),
        Route::Refused
    ));
    assert!(matches!(
        to("/api/local?token=unit-secret", &[]),
        Route::Api(Api::Local)
    ));
    assert!(matches!(
        to("/api/local", &[("Authorization", "Bearer unit-secret")]),
        Route::Api(Api::Local)
    ));
    let (status, text) = refusal_of(&to("/", &[])).unwrap();
    assert_eq!(status, 401);
    assert!(text.contains("未认证"));
}

#[test]
fn the_cookie_opens_only_the_page() {
    let cookie = page_cookie("s p").expect("a token is set");
    let raw = cookie.split(';').next().unwrap();
    assert_eq!(cookie_token(raw).as_deref(), Some("s p"));
    let to = |url: &str| {
        route("s p", &console_request(Method::Get, url, &[("Cookie", raw)]))
    };
    assert!(matches!(to("/"), Route::Page));
    assert!(matches!(to("/index.html?x=1"), Route::Page));
    assert!(matches!(to("/api/runs"), Route::Refused));
    assert!(page_cookie("").is_none());
    assert!(page_request_is_authorized("t", "", None, None, Some("t")));
    assert!(!page_request_is_authorized("t", "", None, None, Some("u")));
    assert!(page_request_is_authorized("", "", None, None, None));
}

#[test]
fn posts_from_foreign_pages_do_nothing() {
    let to = |url: &str, headers: &[(&str, &str)]| {
        route("", &console_request(Method::Post, url, headers))
    };
    let foreign = to("/api/run", &[]);
    assert!(matches!(foreign, Route::Foreign));
    assert!(refusal_of(&foreign).unwrap().1.contains("跨站"));
    assert!(matches!(
        to("/api/run", &[("X-CPE-Console", "1")]),
        Route::Api(Api::Run)
    ));
    let unknown = to("/api/local", &[("X-CPE-Console", "1")]);
    assert!(matches!(unknown, Route::Unknown));
    assert_eq!(refusal_of(&unknown).unwrap().1, "未知接口或请求方法");
    let get = route("", &console_request(Method::Get, "/api/runs/run_1/bundle.zip", &[]));
    match &get {
        Route::Bundle(id) => assert_eq!(id, "run_1"),
        other => panic!("{other:?}"),
    }
    assert!(refusal_of(&get).is_none());
    assert!(matches!(
        route("", &console_request(Method::Other, "/api/runs", &[])),
        Route::Unknown
    ));
}

#[test]
fn ipv6_binds_get_bracketed_before_they_reach_the_listener() {
    assert_eq!(listen_addr("127.0.0.1", 28800), "127.0.0.1:28800");
    assert_eq!(listen_addr("0.0.0.0", 28800), "0.0.0.0:28800");
    assert_eq!(listen_addr("::1", 28800), "[::1]:28800");
    assert_eq!(listen_addr("[::1]", 28800), "[::1]:28800", "已经带括号的不重复加");
    assert_eq!(listen_addr("::", 28800), "[::]:28800");
    assert_eq!(listen_addr(" ::1 ", 28800), "[::1]:28800");
}

#[test]
fn the_bundle_id_only_resolves_to_directories_that_actually_exist() {
    let names: Vec<String> = ["run_1", "run_2"].iter().map(|n| n.to_string()).collect();
    for evil in [
        "..",
        ".",
        "../etc",
        "../../etc/passwd",
        "runs/../..",
        "/etc/passwd",
        "a/b",
        "a\\b",
        ".hidden",
        "",
        "C:",
        "c:",
        "C:Windows",
        r"\\?\C:\Windows",
        "\\\\server\\share",
    ] {
        assert!(resolve_run_dir(&names, evil).is_none(), "{evil:?} 不该解析出目录");
    }
    assert!(resolve_run_dir(&names, "run_does_not_exist_12345").is_none());
    assert_eq!(resolve_run_dir(&names, "run_2"), Some(1));
}

#[test]
fn downloads_are_named_after_their_run() {
    let plain = bundle_disposition("run_1");
    assert!(plain.contains("run_1.zip"), "{plain}");
    let path: Vec<String> = ["iperf_outputs", "raw.log"].iter().map(|p| p.to_string()).collect();
    assert_eq!(bundle_entry("run_demo", &path), "run_demo/iperf_outputs/raw.log");
    assert_eq!(dir_size(&vec![1, 2, 3]), 6);
    assert_eq!(dir_size(&vec![u64::MAX, 1]), u64::MAX);
}

fn run_entry(id: &str, bytes: u64) -> RunEntry {
    RunEntry {
        id: id.into(),
        modified: String::new(),
        has_report: true,
        has_rows: true,
        has_xlsx: false,
        bytes,
    }
}

#[test]
fn the_run_list_puts_the_newest_first() {
    let runs = newest_first(vec![
        run_entry("run_20260101", 1),
        run_entry("run_20260301", 2),
        run_entry("run_20260201", 3),
        run_entry("run_20260301", 4),
    ]);
    let ids: Vec<&str> = runs.iter().map(|run| run.id.as_str()).collect();
    let mut sorted = ids.clone();
    sorted.sort_by(|a, b| b.cmp(a));
    assert_eq!(ids, sorted, "历史运行应当新的在前");
    assert_eq!(runs.iter().map(|run| run.bytes).collect::<Vec<_>>(), vec![2, 4, 3, 1]);
}

#[test]
fn runs_and_reports_are_answered_for() {
    assert_eq!(admit_stop(true), Ok(()));
    assert_eq!(admit_stop(false), Err("当前没有正在运行的测试".to_string()));
    assert_eq!(admit_report("", false), Err("报告尚未生成".to_string()));
    assert_eq!(admit_report("r.html", false), Err("报告文件不存在：r.html".to_string()));
    assert_eq!(admit_report("r.html", true), Ok(()));
    assert_eq!(report_shown("", "new.html"), "new.html");
    assert_eq!(report_shown("old.html", "new.html"), "old.html");
    let query = progress_query("from=3&units_from=x&run_id=a%20b&from=9");
    assert_eq!((query.from, query.units_from), (3, 0));
    assert_eq!(query.run_id.as_deref(), Some("a b"));
    assert_eq!(progress_query("").run_id, None);
    assert_eq!(compile::admit_run(false, false), Ok(()));
    assert!(compile::admit_run(true, false).is_err());
    assert!(compile::admit_run(false, true).unwrap_err().contains("已经有一轮"));
}

#[test]
fn only_the_plan_that_was_confirmed_runs() {
    let state = state_with_pair();
    let mut req = suite_request();
    let plan = compile_request(&state, &req).expect("compile");
    let refused = |req: &RunRequest| compile::confirm_run(req, &plan).unwrap_err();
    assert!(refused(&req).contains("plan_hash"));
    req.plan_hash = Some("  ".into());
    assert!(refused(&req).contains("plan_hash"));
    req.plan_hash = Some("other".into());
    assert!(refused(&req).contains("计划已过期"));
    req.plan_hash = Some(plan.plan_hash.clone());
    assert_eq!(compile::confirm_run(&req, &plan), Ok(()));
    assert_eq!(compile::require_connected(&state), Ok(()));
    let mut lone = state_with_pair();
    lone.agent.interfaces.clear();
    assert!(compile::require_connected(&lone).is_err());
}

#[test]
fn the_plan_reports_both_ends_of_the_resume_estimate() {
    let state = state_with_pair();
    let mut req = RunRequest {
        pairs: vec![PairSelection {
            src: "master:NAME=以太网 6".into(),
            dst: "agent:NAME=WLAN 3".into(),
            directions: vec!["ab".into()],
            transports: vec!["tcp".into()],
            ip: vec!["v4".into()],
            ..Default::default()
        }],
        duration: 60,
        tcp_windows: vec!["2m".into()],
        tcp_streams: vec![1],
        udp_streams: 1,
        resume: false,
        ..Default::default()
    };
    let out = plan_out(compile_request(&state, &req).expect("计划必须生成"));
    assert!(out.est_total_secs > 0, "至少要有一个单元");
    assert_eq!(out.est_total_secs, out.est_full_secs, "没开 resume 时两个数必须一致");

    req.resume = true;
    let fresh = compile_request(&state, &req).unwrap().units[0].id.clone();
    let out = plan_out(compile_with(&state, &req, &vec![fresh]).unwrap());
    assert_eq!(out.est_total_secs, 0);
    assert!(out.est_full_secs > 0);
    assert!(out.units[0].resumed);
    assert!(out.notices.iter().any(|n| n.contains("1/1")), "{:?}", out.notices);
}

// ---------------------------------------------------------------------------
// Live curves
// ---------------------------------------------------------------------------

fn point(value: f64) -> MonitorPoint {
    MonitorPoint {
        t: double(value),
        rx_mbps: double(value),
        tx_mbps: double(0.0),
    }
}

fn session(id: &str, running: bool, last_poll: Option<u64>, started: u64) -> MonitorSession {
    let mut data = MonitorData::new();
    data.running = running;
    data.last_poll = last_poll;
    MonitorSession {
        id: id.into(),
        side: "master".into(),
        iface: "eth0".into(),
        data,
        started,
    }
}

fn cursor(session: &str, from: usize) -> Vec<MonitorCursor> {
    vec![MonitorCursor {
        session: session.into(),
        from,
    }]
}

#[test]
fn monitor_session_ids_stay_unique_within_the_same_millisecond() {
    let mut numbers = SessionIds { next: 0 };
    let ids: Vec<String> = (0..500)
        .map(|_| numbers.next_monitor_session_id(77, 1_700_000_000_000))
        .collect();
    let unique: std::collections::HashSet<&String> = ids.iter().collect();
    assert_eq!(unique.len(), ids.len(), "会话 id 撞了: {ids:?}");
    assert!(ids[0].starts_with("mon-77-"), "id 形状变了: {}", ids[0]);
}

#[test]
fn monitor_cursor_survives_the_ring_buffer_dropping_old_points() {
    let mut only = session("s1", true, None, 0);
    for i in 0..(MONITOR_MAX_POINTS + 120) {
        only.data.push(point(i as f64));
    }
    assert_eq!(only.data.dropped, 120, "超出上限的点必须被挤掉并记数");
    assert_eq!(only.data.points.len(), MONITOR_MAX_POINTS);
    let mut monitors = vec![only];

    let out = poll_monitors(&mut monitors, &cursor("s1", 0), 1).unwrap();
    assert_eq!(out[0].points[0].rx_mbps, double(120.0), "第一个点应是未被挤掉的最早点");
    assert_eq!(out[0].from, MONITOR_MAX_POINTS + 120);
    assert_eq!(out[0].points.len(), MONITOR_MAX_POINTS);

    let out = poll_monitors(&mut monitors, &cursor("s1", MONITOR_MAX_POINTS + 120), 2).unwrap();
    assert!(out[0].points.is_empty(), "追平后不该重发");

    assert!(stop_monitor(&mut monitors, "s1").is_some());
    let out = poll_monitors(&mut monitors, &cursor("s1", 0), 3).unwrap();
    assert!(!out[0].running);
    assert_eq!(out[0].error, "监控会话已结束");
    assert!(stop_monitor(&mut monitors, "s1").is_none());
}

#[test]
fn shutting_down_stops_every_monitor_session() {
    let mut monitors = vec![session("a", true, None, 0), session("b", true, None, 0)];
    let stopped = stop_all_monitors(&mut monitors);
    assert!(monitors.is_empty(), "退出时不能留下任何会话");
    assert_eq!(stopped.len(), 2);
}

#[test]
fn monitor_sessions_whose_page_went_away_get_reaped() {
    let now = 10 * MONITOR_IDLE_NANOS;
    let stale = now - (MONITOR_IDLE_NANOS + 1_000_000_000);
    let mut monitors = vec![
        session("live", true, Some(stale), stale),
        session("just-stopped", false, Some(now), now),
        session("abandoned", false, Some(stale), stale),
        session("never-polled", false, None, stale),
        session("starting", false, None, now),
    ];
    reap_dead_monitors(&mut monitors, now);
    let mut left: Vec<&str> = monitors.iter().map(|m| m.id.as_str()).collect();
    left.sort_unstable();
    assert_eq!(left, ["just-stopped", "live", "starting"]);
}

#[test]
fn the_console_refuses_to_pile_up_monitor_sessions() {
    let mut monitors: Vec<MonitorSession> = (0..MONITOR_MAX_SESSIONS)
        .map(|i| session(&format!("s{i}"), true, None, 0))
        .collect();
    let req = MonitorStartUiReq {
        side: "master".into(),
        iface: "eth0".into(),
        interval_ms: 0,
    };
    let error = admit_monitor(&mut monitors, &req, "", 0)
        .expect_err("撞上限必须直接拒绝，而不是再起一条线程");
    assert!(error.contains("最多"), "{error}");
    assert_eq!(monitors.len(), MONITOR_MAX_SESSIONS, "被拒的那次不能留下任何痕迹");
}

#[test]
fn sessions_start_only_where_they_can_be_served() {
    let mut monitors = Vec::new();
    let req = |side: &str, iface: &str| MonitorStartUiReq {
        side: side.into(),
        iface: iface.into(),
        interval_ms: 10_000,
    };
    assert_eq!(admit_monitor(&mut monitors, &req("master", "eth0"), "", 0), Ok(10_000));
    assert_eq!(admit_monitor(&mut monitors, &req("agent", "eth0"), "10.0.0.2", 0), Ok(5_000));
    assert!(admit_monitor(&mut monitors, &req("master", "  "), "", 0)
        .unwrap_err()
        .contains("先选一块网卡"));
    assert!(admit_monitor(&mut monitors, &req("agent", "eth0"), "", 0)
        .unwrap_err()
        .contains("还没连上辅测机"));
    assert!(admit_monitor(&mut monitors, &req("moon", "eth0"), "", 0)
        .unwrap_err()
        .contains("未知的监控端: moon"));
}

#[test]
fn samples_of_the_agent_are_taken_once() {
    let mut data = MonitorData::new();
    data.take_failure("采样失败：", "x", false);
    assert_eq!(data.error.as_deref(), Some("采样失败：x"));
    assert!(data.running);
    let last = data.take_agent_sample(u64::MAX, Some((1_000, point(1.0))));
    let last = data.take_agent_sample(last, Some((1_000, point(1.0))));
    let last = data.take_agent_sample(last, None);
    assert_eq!(last, 1_000);
    assert_eq!(data.points.len(), 1);
    assert!(data.error.is_none());
    data.take_local_point(point(2.0));
    assert_eq!(data.points.len(), 2);
    data.take_failure("读取网卡计数器失败：", "y", true);
    assert!(!data.running);
    assert_eq!(rise(10, 25), 15);
    assert_eq!(rise(25, 10), 0);
}

// ---------------------------------------------------------------------------
// Laws on concrete values
// ---------------------------------------------------------------------------

fn text_list(list: &[&str]) -> Vec<String> {
    list.iter().map(|s| s.to_string()).collect()
}

#[test]
fn cleaning_twice_is_cleaning_once() {
    let once = cleaned_list(&text_list(&[" 4m ", "", "\t", "2m", "4m"]));
    assert_eq!(once, text_list(&["4m", "2m", "4m"]));
    assert_eq!(cleaned_list(&once), once);
}

#[test]
fn the_name_of_a_band_names_the_band() {
    for (raw, band) in [
        ("2.4 GHz", "wifi_2_4g"),
        ("802.11ax 6GHz", "wifi_6g"),
        ("5 GHz", "wifi_5g"),
        ("", "unknown"),
    ] {
        assert_eq!(canonical_wifi_band(raw), band);
        assert_eq!(canonical_wifi_band(band), band);
    }
}

#[test]
fn every_row_of_a_matrix_makes_a_test() {
    let state = state_with_two_pairs();
    let mut req = request();
    let mut second = req.pairs[0].clone();
    second.src = "agent:NAME=USB 4".into();
    second.dst = "master:NAME=以太网 7".into();
    second.transports = vec!["ping".into()];
    req.pairs.push(second);
    validate_request(&state, &req).unwrap();
    let cfg = config_from_request(&state, &req);
    for pair in &req.pairs {
        let found = |test: &TestSpec| test.src == pair.src && test.dst == pair.dst;
        assert!(cfg.tests.iter().any(found), "{}", pair.src);
    }
}

#[test]
fn every_task_runs_on_every_bound_pair() {
    let state = state_with_two_pairs();
    let mut req = suite_request();
    let plan = req.ui_plan.as_mut().unwrap();
    for (id, src, dst) in [
        ("pair-b", "master:NAME=以太网 7", "agent:NAME=USB 4"),
        ("pair-c", "master:NAME=以太网 7", "agent:NAME=WLAN 3"),
    ] {
        plan.link_sets[0].pair_refs.push(UiPairRef {
            id: id.into(),
            src: src.into(),
            dst: dst.into(),
        });
    }
    plan.suites[0].order = vec!["task-udp".into()];
    plan.bindings.push(UiBinding {
        id: "bind-b".into(),
        link_set_id: "set-a".into(),
        suite_id: "suite-a".into(),
        order: 0,
        pair_ids: vec!["pair-c".into(), "pair-a".into()],
        ..Default::default()
    });
    validate_request(&state, &req).unwrap();
    let cfg = config_from_request(&state, &req);
    let runs: Vec<(String, String, String)> = cfg
        .tests
        .iter()
        .map(|test| {
            let origin = test.origin.as_ref().unwrap();
            (
                origin.binding_id.clone(),
                origin.pair_id.clone(),
                origin.task_id.clone(),
            )
        })
        .collect();
    let expected: Vec<(String, String, String)> = [
        ("bind-b", "pair-c", "task-udp"),
        ("bind-b", "pair-c", "task-tcp"),
        ("bind-b", "pair-a", "task-udp"),
        ("bind-b", "pair-a", "task-tcp"),
        ("bind-a", "pair-a", "task-udp"),
        ("bind-a", "pair-a", "task-tcp"),
        ("bind-a", "pair-b", "task-udp"),
        ("bind-a", "pair-b", "task-tcp"),
        ("bind-a", "pair-c", "task-udp"),
        ("bind-a", "pair-c", "task-tcp"),
    ]
    .iter()
    .map(|(b, p, t)| (b.to_string(), p.to_string(), t.to_string()))
    .collect();
    assert_eq!(runs, expected);
}

#[test]
fn importing_shows_the_policies_and_no_others() {
    let mut state = state_with_two_pairs();
    let mut req = request();
    req.nic_policies[0].rx_target = " 90% ".into();
    req.nic_policies[1].udp_bandwidth = String::new();
    req.nic_policies[1].rx_target = String::new();
    req.nic_policies[1].udp_length = " 1200 ".into();
    req.nic_policies.push(NicPolicySelection {
        endpoint: "agent:NAME=USB 4".into(),
        ..Default::default()
    });
    validate_request(&state, &req).unwrap();
    let cfg = config_from_request(&state, &req);
    let out = import(&mut state, &cfg).unwrap();
    let policies: Vec<(&str, String, &str, &str)> = out
        .nic_policies
        .iter()
        .map(|p| {
            (
                p.endpoint.as_str(),
                target_text(p.rx_target),
                p.udp_bandwidth.as_str(),
                p.udp_length.as_str(),
            )
        })
        .collect();
    assert_eq!(
        policies,
        vec![
            ("master:NAME=以太网 6", "90%".to_string(), "2.6G", ""),
            ("agent:NAME=WLAN 3", String::new(), "", "1200"),
        ]
    );
}

#[test]
fn importing_shows_the_settings_of_the_matrix() {
    let mut state = state_with_pair();
    let mut req = request();
    req.pairs[0].transports.push("ping".into());
    req.duration = 45;
    req.screenshot = true;
    req.ping_count = 7;
    req.ping_payload_sizes = vec![64, 0, 1472, 64];
    validate_request(&state, &req).unwrap();
    let cfg = config_from_request(&state, &req);
    let settings = import(&mut state, &cfg).unwrap().settings;
    assert_eq!(settings.duration, 45);
    assert!(settings.screenshot);
    assert_eq!(settings.tcp_windows, text_list(&["2m", "4m", "256m"]));
    assert_eq!(settings.ping_count, 7);
    assert_eq!(settings.ping_payload_sizes, vec![64, 1472]);
}

#[test]
fn counts_become_the_nearest_doubles() {
    for n in [
        0,
        1,
        1000,
        (1 << 53) - 1,
        (1 << 53) + 1,
        (1 << 53) + 3,
        u64::MAX - 1024,
        u64::MAX,
    ] {
        assert_eq!(Double::of_count(n).bits, (n as f64).to_bits(), "{n}");
    }
}

#[test]
fn bandwidths_are_shown_as_division_gives_them() {
    for bits in [
        0u64,
        1,
        49_999,
        50_000,
        150_000,
        250_000,
        999_999,
        123_456_789,
        2_600_000_000,
        9_007_199_254_740_993,
        u64::MAX,
    ] {
        let mbps = bits as f64 / 1_000_000.0;
        let expected = if mbps.fract().abs() < f64::EPSILON {
            format!("-b {mbps:.0} Mbps")
        } else {
            format!("-b {mbps:.1} Mbps")
        };
        assert_eq!(readable_args(&text_list(&["-b", &bits.to_string()])), expected);
    }
}

#[test]
fn complaints_quote_what_was_written() {
    assert_eq!(
        parse_rx_target("9\"0\n"),
        Err("看不懂的门限写法 \"9\\\"0\\n\"，请填 1800 或 90%".to_string())
    );
}

#[test]
fn bytes_that_are_no_text_are_replaced() {
    assert_eq!(urldecode("a%ffb%E4%B8%AD"), "a\u{fffd}b中");
    assert_eq!(urldecode(&urlencode("a b/中%")), "a b/中%");
    assert_eq!(urlencode("a b/中"), "a%20b%2F%E4%B8%AD");
}

#[test]
fn hosts_are_read_in_any_case() {
    let state = state_with_pair();
    let rd = readings_of(&state, vec!["Master:NAME=以太网 6".into()]);
    assert_eq!(
        canonical_endpoint(&rd, "Master:NAME=以太网 6"),
        Some("master:NAME=以太网 6".to_string())
    );
}

fn object(fields: Vec<(&str, Json)>) -> Json {
    Json::Object(
        fields
            .into_iter()
            .map(|(name, value)| JsonField {
                name: name.into(),
                value,
            })
            .collect(),
    )
}

fn count(n: u32) -> Json {
    Json::Number(n.to_string())
}

/// Objects are written with their names in order.
fn written(json: &Json) -> String {
    match json {
        Json::Null => "null".into(),
        Json::Flag(flag) => flag.to_string(),
        Json::Number(text) => text.clone(),
        Json::Text(text) => format!("{text:?}"),
        Json::List(list) => {
            let parts: Vec<String> = list.iter().map(written).collect();
            format!("[{}]", parts.join(","))
        }
        Json::Object(fields) => {
            let mut parts: Vec<String> = fields
                .iter()
                .map(|f| format!("{:?}:{}", f.name, written(&f.value)))
                .collect();
            parts.sort();
            format!("{{{}}}", parts.join(","))
        }
    }
}

fn own_document() -> Json {
    object(vec![
        ("agent_token", Json::Text("s3cret".into())),
        (
            "iperf",
            object(vec![
                ("duration", count(10)),
                ("rate_check", object(vec![("mode", Json::Text("auto".into()))])),
                ("tcp_windows", Json::List(vec![Json::Text("4m".into())])),
            ]),
        ),
        ("resume", Json::Flag(true)),
    ])
}

#[test]
fn what_a_project_writes_wins_and_the_rest_stays() {
    let project = object(vec![
        ("agent_token", Json::Text("other".into())),
        (
            "iperf",
            object(vec![
                ("duration", count(60)),
                ("rate_check", object(vec![("share", count(90))])),
                ("tcp_windows", Json::List(Vec::new())),
            ]),
        ),
        ("ping", object(vec![("count", count(5))])),
        ("resume", Json::Flag(false)),
    ]);
    assert_eq!(
        written(&with_baseline(own_document(), project)),
        "{\"agent_token\":\"s3cret\",\
         \"iperf\":{\"duration\":60,\"rate_check\":{\"mode\":\"auto\",\"share\":90},\"tcp_windows\":[]},\
         \"ping\":{\"count\":5},\
         \"resume\":true}"
    );
}

#[test]
fn a_project_without_a_baseline_changes_nothing() {
    let merged = with_baseline(own_document(), Json::Null);
    assert_eq!(written(&merged), written(&own_document()));
}

#[test]
fn a_baseline_tells_nothing_of_the_host() {
    assert_eq!(
        written(&baseline_of(own_document())),
        "{\"iperf\":{\"duration\":10,\"rate_check\":{\"mode\":\"auto\"},\"tcp_windows\":[\"4m\"]}}"
    );
    assert_eq!(written(&baseline_of(Json::Flag(true))), "{}");
}

// ---------------------------------------------------------------------------
// Wi-Fi thresholds
// ---------------------------------------------------------------------------

fn wifi_state() -> UiState {
    let mut state = state_with_pair();
    state.master.interfaces[0].role = "WIFI6G".into();
    state.master.interfaces[0].wifi_band = "6 GHz".into();
    state
}

fn wifi_request() -> RunRequest {
    let mut req = request();
    req.nic_policies.clear();
    req.pairs[0].transports = vec!["tcp".into()];
    req
}

fn first_test(state: &UiState, req: &RunRequest) -> TestSpec {
    validate_request(state, req).unwrap();
    config_from_request(state, req).tests[0].clone()
}

fn single_targets(test: &TestSpec) -> (Option<f64>, Option<f64>) {
    let shown = |target: Option<Double>| target.map(|t| f64::from_bits(t.bits));
    match test.rate_targets_mbps {
        Some(targets) => (shown(targets.ab), shown(targets.ba)),
        None => (None, None),
    }
}

fn total_target(test: &TestSpec) -> Option<f64> {
    let value = |t: Double| f64::from_bits(t.bits);
    test.rate_target_bidir_total_mbps.map(|total| match total {
        TotalTarget::Total(x) => value(x),
        TotalTarget::Sum(a, b) => value(a) + value(b),
        TotalTarget::Twice(x) => value(x) * 2.0,
    })
}

fn band_rule() -> WifiBandThreshold {
    WifiBandThreshold {
        master_band: "6GHz".into(),
        agent_band: "wifi_5g".into(),
        rx_target_master_to_agent_mbps: double(700.0),
        rx_target_agent_to_master_mbps: double(600.0),
        bidir_rx_target_master_to_agent_mbps: double(400.0),
        bidir_rx_target_agent_to_master_mbps: double(350.0),
        ..Default::default()
    }
}

#[test]
fn band_thresholds_follow_the_direction_of_the_link() {
    let state = wifi_state();
    let mut req = wifi_request();
    req.wifi_band_thresholds = vec![band_rule()];
    let test = first_test(&state, &req);
    assert_eq!(single_targets(&test), (Some(700.0), Some(600.0)));
    assert_eq!(total_target(&test), Some(750.0));

    let pair = &mut req.pairs[0];
    std::mem::swap(&mut pair.src, &mut pair.dst);
    let test = first_test(&state, &req);
    assert_eq!(single_targets(&test), (Some(600.0), Some(700.0)));
    assert_eq!(total_target(&test), Some(750.0));

    req.wifi_band_thresholds[0].bidir_total_rx_target_mbps = double(900.0);
    assert_eq!(total_target(&first_test(&state, &req)), Some(900.0));
}

#[test]
fn wired_links_get_no_wifi_thresholds() {
    let mut req = wifi_request();
    req.wifi_pair_rx_target_mbps = double(500.0);
    let test = first_test(&state_with_pair(), &req);
    assert_eq!(single_targets(&test), (None, None));
}

#[test]
fn wifi_thresholds_fall_back_level_by_level() {
    let state = wifi_state();
    let mut req = wifi_request();
    req.wifi_pair_rx_target_mbps = double(100.0);
    req.wifi_pair_bidir_rx_target_mbps = double(80.0);
    let test = first_test(&state, &req);
    assert_eq!(single_targets(&test), (Some(100.0), Some(100.0)));
    assert_eq!(total_target(&test), Some(160.0));

    req.wifi_pair_bidir_total_rx_target_mbps = double(170.0);
    assert_eq!(total_target(&first_test(&state, &req)), Some(170.0));

    req.wifi_band_thresholds = vec![WifiBandThreshold {
        src_band: "5GHz".into(),
        dst_band: "6GHz".into(),
        rx_target_mbps: double(200.0),
        ..Default::default()
    }];
    let test = first_test(&state, &req);
    assert_eq!(single_targets(&test), (Some(100.0), Some(200.0)));

    req.wifi_pair_thresholds = vec![WifiPairThreshold {
        src_endpoint: "master:NAME=以太网 6".into(),
        dst_endpoint: "agent:NAME=WLAN 3".into(),
        rx_target_ab_mbps: double(300.0),
        bidir_rx_target_ab_mbps: double(120.0),
        ..Default::default()
    }];
    let test = first_test(&state, &req);
    assert_eq!(single_targets(&test), (Some(300.0), Some(200.0)));
    assert_eq!(total_target(&test), Some(170.0), "one direction makes no sum");
}

#[test]
fn a_threshold_of_the_receiving_interface_comes_first() {
    let mut state = wifi_state();
    let mut req = wifi_request();
    req.wifi_pair_rx_target_mbps = double(100.0);
    req.nic_policies = vec![NicPolicySelection {
        endpoint: "agent:NAME=WLAN 3".into(),
        rx_target: "90%".into(),
        ..Default::default()
    }];
    let test = first_test(&state, &req);
    assert_eq!(single_targets(&test), (None, Some(100.0)));

    state.agent.interfaces[0].speed_mbps = 0;
    let test = first_test(&state, &req);
    assert_eq!(
        single_targets(&test),
        (Some(100.0), Some(100.0)),
        "a share of an unknown speed is no threshold"
    );
}

#[test]
fn a_task_keeps_the_thresholds_it_was_given() {
    let state = wifi_state();
    let mut req = suite_request();
    req.wifi_band_thresholds = vec![band_rule()];
    let task = &mut req.ui_plan.as_mut().unwrap().suites[0].tasks[0];
    task.rate_targets_mbps = Some(RateTargets {
        forward: Some(double(1200.0)),
        ..Default::default()
    });
    let test = first_test(&state, &req);
    assert_eq!(single_targets(&test), (None, Some(600.0)));
    let targets = test.rate_targets_mbps.unwrap();
    assert_eq!(targets.forward.map(|t| f64::from_bits(t.bits)), Some(1200.0));
}

#[test]
fn units_that_two_tasks_ask_for_run_once() {
    let state = state_with_pair();
    let mut req = suite_request();
    let plan = req.ui_plan.as_mut().unwrap();
    plan.suites[0].order.clear();
    let mut again = plan.suites[0].tasks[0].clone();
    again.id = "task-again".into();
    plan.suites[0].tasks.push(again);
    let compiled = compile_request(&state, &req).unwrap();
    let ids: Vec<&String> = compiled.units.iter().map(|unit| &unit.id).collect();
    let mut distinct_ids = ids.clone();
    distinct_ids.sort();
    distinct_ids.dedup();
    assert_eq!(ids.len(), distinct_ids.len());
    assert_eq!(compiled.trace.len(), compiled.units.len());
    assert!(
        compiled.notices.iter().any(|notice| notice.starts_with("计划去重：移除了 1 个")),
        "{:?}",
        compiled.notices
    );
}

fn loads(list: &[(&str, Option<&str>, Option<&str>)]) -> Vec<UdpProfile> {
    list.iter()
        .map(|(bandwidth, length, window)| UdpProfile {
            bandwidth: bandwidth.to_string(),
            length: length.map(String::from),
            window: window.map(String::from),
        })
        .collect()
}

#[test]
fn a_group_is_neat_only_where_it_runs_just_the_loads() {
    let twice = loads(&[
        ("1m", Some("64"), None),
        ("1m", Some("64"), None),
        ("500m", Some("1400"), None),
        ("500m", Some("1400"), None),
    ]);
    let (group, neat) = udp_group_from_profiles(&twice, 1);
    assert_eq!(group.bandwidths, text_list(&["1m", "500m"]));
    assert_eq!(group.lengths, text_list(&["64", "1400"]));
    assert!(group.windows.is_empty());
    assert_eq!(group.streams, 1);
    assert!(!neat, "as many loads as combinations, but not the same ones");

    let neat = |list: &[(&str, Option<&str>, Option<&str>)]| udp_group_from_profiles(&loads(list), 1).1;
    assert!(neat(&[
        ("500m", Some("1400"), None),
        ("1m", Some("64"), None),
        ("1m", Some("1400"), None),
        ("500m", Some("64"), None),
    ]));
    assert!(neat(&[("1m", None, Some("4m")), ("2m", None, Some("4m"))]));
    assert!(!neat(&[("1m", Some("64"), None), ("500m", Some("1400"), None)]));
    assert!(!neat(&[("1m", None, None), ("1m", None, None)]));
    assert!(!neat(&[("1m", None, None), ("1m", Some("64"), None)]));
    assert!(!neat(&[]));
}

#[test]
fn importing_loads_that_are_no_cross_product_says_so() {
    let mut state = state_with_pair();
    let mut req = request();
    req.nic_policies.clear();
    req.pairs[0].transports = vec!["udp".into()];
    let mut cfg = config_from_request(&state, &req);
    let said = |out: &ImportOut| out.notices.iter().any(|notice| notice.contains("整齐组合"));
    assert!(!said(&import(&mut state, &cfg).unwrap()));
    for test in &mut cfg.tests {
        test.udp_profiles = Some(loads(&[
            ("1m", Some("64"), None),
            ("1m", Some("64"), None),
            ("500m", Some("1400"), None),
            ("500m", Some("1400"), None),
        ]));
    }
    assert!(said(&import(&mut state, &cfg).unwrap()));
}

#[test]
fn drafts_change_no_verdict_and_no_test() {
    let state = state_with_pair();
    let mut broken = suite_request();
    broken.ui_plan.as_mut().unwrap().bindings[0].link_set_id = "nowhere".into();
    for req in [suite_request(), broken] {
        let mut larger = req.clone();
        let sets = &mut larger.ui_plan.as_mut().unwrap().link_sets;
        sets.push(UiLinkSet {
            id: "draft".into(),
            name: "草稿".into(),
            pair_refs: vec![UiPairRef {
                id: "gone".into(),
                src: "master:NAME=nothing".into(),
                dst: "agent:NAME=nobody".into(),
            }],
        });
        sets.push(UiLinkSet {
            id: "empty".into(),
            ..Default::default()
        });
        assert_eq!(validate_request(&state, &larger), validate_request(&state, &req));
        assert_eq!(
            config_from_request(&state, &larger).tests.len(),
            config_from_request(&state, &req).tests.len()
        );
    }
}

#[test]
fn two_starts_in_one_millisecond_give_two_sessions() {
    let mut monitors = Vec::new();
    let mut ids = SessionIds { next: 0 };
    let req = MonitorStartUiReq {
        side: "master".into(),
        iface: " eth0 ".into(),
        interval_ms: 100,
    };
    let mut start = |now: u64| start_monitor(&mut monitors, &mut ids, &req, "", 77, 5, now).unwrap();
    let (first, interval) = start(1);
    let (second, _) = start(2);
    assert_eq!(interval, 200);
    assert_ne!(first, second);
    assert!(first.starts_with("mon-77-") && second.starts_with("mon-77-"));
    let table: Vec<(&str, &str, u64, bool)> = monitors
        .iter()
        .map(|s| (s.id.as_str(), s.iface.as_str(), s.started, s.data.running))
        .collect();
    assert_eq!(
        table,
        vec![
            (first.as_str(), "eth0", 1, true),
            (second.as_str(), "eth0", 2, true),
        ]
    );
    let nobody = MonitorStartUiReq {
        side: "agent".into(),
        ..req.clone()
    };
    assert!(start_monitor(&mut monitors, &mut ids, &nobody, "", 77, 5, 3).is_err());
    assert_eq!((monitors.len(), ids.next), (2, 2));
}

#[test]
fn a_refused_start_leaves_the_run_under_way() {
    let mut running = false;
    assert_eq!(compile::begin_run(&mut running, false), Ok(()));
    assert!(running);
    let error = compile::begin_run(&mut running, false).unwrap_err();
    assert_eq!(error, "已经有一轮测试在跑了");
    assert!(running);
    let mut idle = false;
    assert!(compile::begin_run(&mut idle, true).is_err());
    assert!(!idle);
}

#[test]
fn hosts_and_words_are_known_by_their_small_letters() {
    assert_eq!(find_host("主控"), Some("master"));
    assert_eq!(find_host("remote"), Some("agent"));
    assert_eq!(find_host("Remote"), None);
    assert_eq!(read_host(" Remote "), Some("agent"));
    let mut list = Vec::new();
    for text in ["v6", "V4", "v4", "ipv6"] {
        push_known(&mut list, text.to_string(), "v4", "v6");
    }
    assert_eq!(list, text_list(&["v6", "v4"]));
}

#[test]
fn a_start_that_comes_to_nothing_gives_the_flag_back() {
    let mut running = false;
    compile::begin_run(&mut running, false).unwrap();
    compile::settle_start(&mut running, &Ok::<(), String>(()));
    assert!(running);
    compile::settle_start(&mut running, &Err::<(), String>("计划已过期".into()));
    assert!(!running);
    assert_eq!(compile::begin_run(&mut running, false), Ok(()));
}

#[test]
fn accepted_udp_recipes_run_with_1_to_32_streams() {
    let state = state_with_pair();
    let mut req = suite_request();
    let recipe = UiRecipe {
        id: "udp-r".into(),
        name: "UDP".into(),
        bandwidths: text_list(&[" ", "100m", "1G"]),
        lengths: text_list(&["1200"]),
        udp_streams: vec![1, 32],
        ..Default::default()
    };
    req.ui_plan.as_mut().unwrap().recipes.udp = vec![recipe.clone()];
    validate_request(&state, &req).unwrap();
    let runs = recipe_udp_profiles(&recipe, &Vec::new(), 0);
    let shown: Vec<(&str, u32)> =
        runs.iter().map(|run| (run.profile.bandwidth.as_str(), run.streams)).collect();
    assert_eq!(shown, vec![("100m", 1), ("100m", 32), ("1G", 1), ("1G", 32)]);

    let without = UiRecipe {
        udp_streams: Vec::new(),
        ..recipe
    };
    let runs = recipe_udp_profiles(&without, &Vec::new(), 0);
    assert_eq!((runs.len(), runs[0].streams), (2, 1));
}

#[test]
fn importing_repeats_no_row_and_no_group() {
    let mut state = state_with_two_pairs();
    let mut req = request();
    req.nic_policies.clear();
    let mut cfg = config_from_request(&state, &req);
    let mut more = Vec::new();
    for test in &cfg.tests {
        let mut back = test.clone();
        std::mem::swap(&mut back.src, &mut back.dst);
        back.tcp_windows = back.tcp_windows.map(|_| text_list(&["64k"]));
        back.udp_profiles = back.udp_profiles.map(|_| loads(&[("7m", None, None)]));
        more.push(back.clone());
        back.src = "master:NAME=以太网 7".into();
        back.dst = "agent:NAME=USB 4".into();
        more.push(back);
    }
    cfg.tests.extend(more);
    let out = import(&mut state, &cfg).unwrap();
    assert_eq!(out.pairs.len(), 2);
    assert_eq!((out.udp_groups.len(), out.tcp_groups.len()), (1, 1));
    for pair in &out.pairs {
        for (numbers, count) in [(&pair.udp_groups, 1), (&pair.tcp_groups, 1)] {
            let mut once = numbers.clone();
            once.sort();
            once.dedup();
            assert_eq!(once.len(), numbers.len());
            assert!(!numbers.is_empty() && numbers.iter().all(|number| *number <= count));
        }
    }
}
