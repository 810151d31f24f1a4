use cpe_bench::ping::{
    append_execution_error, build, command_line, execution_error, execution_error_kind,
    find_execution_error, finish_run, is_reply, parse, timeout_secs, CmdOut, PingExecErrorKind, PingExecFailure,
};
use cpe_bench::pattern::Captures;
use cpe_bench::protocol::{PingOut, PingReq};

fn loss_pct(out: &PingOut) -> f64 {
    if out.sent > 0 {
        out.lost as f64 / out.sent as f64 * 100.0
    } else {
        100.0
    }
}

fn rtt(text: &Option<String>) -> Option<f64> {
    text.as_ref().and_then(|t| t.parse().ok())
}

const CN: &str = r#"
正在 Ping 192.168.1.3 具有 32 字节的数据:
来自 192.168.1.3 的回复: 字节=32 时间<1ms TTL=64
来自 192.168.1.3 的回复: 字节=32 时间=1ms TTL=64
来自 192.168.1.3 的回复: 字节=32 时间<1ms TTL=64
来自 192.168.1.3 的回复: 字节=32 时间<1ms TTL=64

192.168.1.3 的 Ping 统计信息:
    数据包: 已发送 = 4，已接收 = 4，丢失 = 0 (0% 丢失)，
往返行程的估计时间(以毫秒为单位):
    最短 = 0ms，最长 = 1ms，平均 = 0ms
"#;

#[test]
fn test_cn() {
    let r = parse(CN, 4);
    assert!(r.ok);
    assert_eq!((r.sent, r.received, r.lost), (4, 4, 0));
    assert_eq!(loss_pct(&r), 0.0);
    assert_eq!(rtt(&r.rtt_avg), Some(0.0));
    assert_eq!(rtt(&r.rtt_max), Some(1.0));
}

const EN: &str = r#"
Pinging 192.168.1.3 with 32 bytes of data:
Reply from 192.168.1.3: bytes=32 time<1ms TTL=64
Reply from 192.168.1.3: bytes=32 time=1ms TTL=64
Reply from 192.168.1.3: bytes=32 time=2ms TTL=64

Ping statistics for 192.168.1.3:
    Packets: Sent = 4, Received = 3, Lost = 1 (25% loss),
Approximate round trip times in milli-seconds:
    Minimum = 0ms, Maximum = 2ms, Average = 1ms
"#;

#[test]
fn test_en() {
    let r = parse(EN, 4);
    assert!(r.ok);
    assert_eq!((r.sent, r.received, r.lost), (4, 3, 1));
    assert_eq!(loss_pct(&r), 25.0);
    assert_eq!(rtt(&r.rtt_avg), Some(1.0));
}

const MAC: &str = r#"
PING 192.168.8.1 (192.168.8.1) from 192.168.8.100: 56 data bytes
64 bytes from 192.168.8.1: icmp_seq=0 ttl=64 time=1.312 ms
64 bytes from 192.168.8.1: icmp_seq=1 ttl=64 time=1.605 ms
64 bytes from 192.168.8.1: icmp_seq=2 ttl=64 time=1.998 ms

--- 192.168.8.1 ping statistics ---
3 packets transmitted, 3 packets received, 0.0% packet loss
round-trip min/avg/max/stddev = 1.312/1.605/1.998/0.281 ms
"#;

#[test]
fn test_mac() {
    let r = parse(MAC, 3);
    assert!(r.ok);
    assert_eq!((r.sent, r.received, r.lost), (3, 3, 0));
    assert_eq!(rtt(&r.rtt_min), Some(1.312));
    assert_eq!(rtt(&r.rtt_avg), Some(1.605));
    assert_eq!(rtt(&r.rtt_max), Some(1.998));
}

#[test]
fn test_no_match_means_all_lost() {
    let r = parse("Request timed out.", 10);
    assert!(!r.ok);
    assert_eq!(r.sent, 10);
    assert_eq!(r.received, 0);
    assert_eq!(loss_pct(&r), 100.0);
}

#[test]
fn test_all_lost_cn() {
    let t = r#"
正在 Ping 192.168.1.99 具有 32 字节的数据:
请求超时。
请求超时。
请求超时。
请求超时。
数据包: 已发送 = 4，已接收 = 0，丢失 = 4 (100% 丢失)，
"#;
    let r = parse(t, 4);
    assert!(!r.ok);
    assert_eq!(loss_pct(&r), 100.0);
}

#[test]
fn test_summary_received_without_echo_evidence_is_not_success() {
    let text = r#"
Ping statistics for 192.168.1.99:
    Packets: Sent = 4, Received = 4, Lost = 0 (0% loss),
"#;
    let r = parse(text, 4);
    assert!(!r.ok);
    assert_eq!((r.sent, r.received, r.lost), (4, 0, 4));
    assert_eq!(loss_pct(&r), 100.0);
}


const CN_UNREACHABLE: &str = r#"
正在 Ping 192.168.1.99 具有 32 字节的数据:
来自 192.168.1.5 的回复: 无法访问目标主机。
来自 192.168.1.5 的回复: 无法访问目标主机。
来自 192.168.1.5 的回复: 无法访问目标主机。
来自 192.168.1.5 的回复: 无法访问目标主机。

192.168.1.99 的 Ping 统计信息:
    数据包: 已发送 = 4，已接收 = 4，丢失 = 0 (0% 丢失)，
"#;

#[test]
fn test_cn_unreachable_is_not_success() {
    let r = parse(CN_UNREACHABLE, 4);
    assert!(!r.ok, "目标不可达不应判定为 ping 成功");
    assert_eq!(r.sent, 4);
    assert_eq!(r.received, 0);
    assert_eq!(r.lost, 4);
    assert_eq!(loss_pct(&r), 100.0);
}

const EN_UNREACHABLE: &str = r#"
Pinging 192.168.1.99 with 32 bytes of data:
Reply from 192.168.1.5: Destination host unreachable.
Reply from 192.168.1.5: Destination host unreachable.
Reply from 192.168.1.5: Destination host unreachable.
Reply from 192.168.1.5: Destination host unreachable.

Ping statistics for 192.168.1.99:
    Packets: Sent = 4, Received = 4, Lost = 0 (0% loss),
"#;

#[test]
fn test_en_unreachable_is_not_success() {
    let r = parse(EN_UNREACHABLE, 4);
    assert!(!r.ok);
    assert_eq!(r.received, 0);
    assert_eq!(r.lost, 4);
    assert_eq!(loss_pct(&r), 100.0);
}

const CN_PARTIAL_UNREACHABLE: &str = r#"
正在 Ping 192.168.1.99 具有 32 字节的数据:
来自 192.168.1.99 的回复: 字节=32 时间=1ms TTL=64
来自 192.168.1.5 的回复: 无法访问目标主机。
来自 192.168.1.99 的回复: 字节=32 时间=1ms TTL=64
来自 192.168.1.5 的回复: 无法访问目标主机。

192.168.1.99 的 Ping 统计信息:
    数据包: 已发送 = 4，已接收 = 4，丢失 = 0 (0% 丢失)，
"#;

#[test]
fn test_cn_partial_unreachable_counts_real_success_only() {
    let r = parse(CN_PARTIAL_UNREACHABLE, 4);
    assert!(r.ok);
    assert_eq!(r.received, 2);
    assert_eq!(r.lost, 2);
    assert_eq!(loss_pct(&r), 50.0);
}

const EN_PARTIAL_UNREACHABLE: &str = r#"
Pinging 192.168.1.99 with 32 bytes of data:
Reply from 192.168.1.99: bytes=32 time=1ms TTL=64
Reply from 192.168.1.5: Destination host unreachable.
Reply from 192.168.1.99: bytes=32 time=2ms TTL=64
Reply from 192.168.1.5: Destination host unreachable.

Ping statistics for 192.168.1.99:
    Packets: Sent = 4, Received = 4, Lost = 0 (0% loss),
Approximate round trip times in milli-seconds:
    Minimum = 1ms, Maximum = 2ms, Average = 1ms
"#;

#[test]
fn test_en_partial_unreachable_counts_real_success_only() {
    let r = parse(EN_PARTIAL_UNREACHABLE, 4);
    assert!(r.ok);
    assert_eq!((r.sent, r.received, r.lost), (4, 2, 2));
    assert_eq!(loss_pct(&r), 50.0);
    assert_eq!(rtt(&r.rtt_avg), Some(1.0));
}

const MAC_REDIRECT_AND_REPLIES: &str = r#"
PING 192.168.8.1 (192.168.8.1): 56 data bytes
36 bytes from 192.168.8.254: Redirect Host(New addr: 192.168.8.1)
Vr HL TOS  Len   ID Flg  off TTL Pro  cks      Src      Dst
 4  5  00 0054 0000   0 0000  40  01 f70d 192.168.8.100  192.168.8.1
64 bytes from 192.168.8.1: icmp_seq=0 ttl=64 time=1.100 ms
36 bytes from 192.168.8.254: Redirect Host(New addr: 192.168.8.1)
64 bytes from 192.168.8.1: icmp_seq=1 ttl=64 time=1.300 ms

--- 192.168.8.1 ping statistics ---
2 packets transmitted, 2 packets received, 0.0% packet loss
round-trip min/avg/max/stddev = 1.100/1.200/1.300/0.100 ms
"#;

#[test]
fn test_macos_redirect_does_not_subtract_real_echo_replies() {
    let r = parse(MAC_REDIRECT_AND_REPLIES, 2);
    assert!(r.ok);
    assert_eq!((r.sent, r.received, r.lost), (2, 2, 0));
    assert_eq!(loss_pct(&r), 0.0);
    assert_eq!(rtt(&r.rtt_avg), Some(1.2));
}

const MAC_REDIRECT_WITH_PARTIAL_REPLY: &str = r#"
PING 192.168.8.1 (192.168.8.1): 56 data bytes
36 bytes from 192.168.8.254: Redirect Host(New addr: 192.168.8.1)
64 bytes from 192.168.8.1: icmp_seq=0 ttl=64 time=1.100 ms
36 bytes from 192.168.8.254: Redirect Host(New addr: 192.168.8.1)

--- 192.168.8.1 ping statistics ---
2 packets transmitted, 1 packets received, 50.0% packet loss
round-trip min/avg/max/stddev = 1.100/1.100/1.100/0.000 ms
"#;

#[test]
fn test_macos_redirect_with_partial_reply_counts_only_echo_reply() {
    let r = parse(MAC_REDIRECT_WITH_PARTIAL_REPLY, 2);
    assert!(r.ok);
    assert_eq!((r.sent, r.received, r.lost), (2, 1, 1));
    assert_eq!(loss_pct(&r), 50.0);
}

fn cmd_out(ok: bool, timed_out: bool, stdout: &str, stderr: &str) -> CmdOut {
    CmdOut {
        ok,
        timed_out,
        stderr: stderr.into(),
        raw: if stderr.is_empty() {
            stdout.to_string()
        } else {
            format!("{stdout}\n{stderr}")
        },
    }
}

#[test]
fn test_normal_zero_reply_is_not_execution_error() {
    let stdout = r#"
PING 192.0.2.1 (192.0.2.1): 56 data bytes

--- 192.0.2.1 ping statistics ---
3 packets transmitted, 0 packets received, 100.0% packet loss
"#;
    let out = finish_run(
        "ping 192.0.2.1".into(),
        3,
        45,
        cmd_out(false, false, stdout, ""),
    );
    assert!(!out.ok);
    assert_eq!((out.sent, out.received, out.lost), (3, 0, 3));
    assert_eq!(execution_error_kind(&out), None);
    assert_eq!(execution_error(&out), None);
}

#[test]
fn test_spawn_error_has_stable_compatible_marker() {
    let out = finish_run(
        "ping 127.0.0.1".into(),
        3,
        45,
        cmd_out(false, false, "", "启动命令失败: ping (not found)"),
    );
    assert_eq!(execution_error_kind(&out), Some(PingExecErrorKind::Spawn));
    assert_eq!(
        execution_error(&out).as_deref(),
        Some("无法启动 ping 子进程")
    );
    assert!(out.raw.contains("[CPE_PING_EXEC_ERROR:SPAWN]"));
    assert_eq!((out.sent, out.received, out.lost), (3, 0, 3));
}

#[test]
fn test_timeout_has_stable_compatible_marker() {
    let out = finish_run(
        "ping 127.0.0.1".into(),
        3,
        45,
        cmd_out(false, true, "partial output", ""),
    );
    assert_eq!(execution_error_kind(&out), Some(PingExecErrorKind::Timeout));
    assert!(execution_error(&out).unwrap().contains("45 秒"));
    assert!(out.raw.contains("[CPE_PING_EXEC_ERROR:TIMEOUT]"));
}

#[test]
fn test_bind_or_general_failure_is_execution_error_even_with_summary() {
    let windows = r#"
Pinging 192.0.2.1 with 32 bytes of data:
PING: transmit failed. General failure.

Ping statistics for 192.0.2.1:
    Packets: Sent = 1, Received = 0, Lost = 1 (100% loss),
"#;
    let out = finish_run(
        "ping 192.0.2.1".into(),
        1,
        35,
        cmd_out(false, false, windows, ""),
    );
    assert_eq!(
        execution_error_kind(&out),
        Some(PingExecErrorKind::Execution)
    );
    assert!(out.raw.contains("[CPE_PING_EXEC_ERROR:EXECUTION]"));
}

#[test]
fn test_local_payload_too_large_is_execution_error_not_packet_loss() {
    let stdout = r#"
PING 192.168.8.100 (192.168.8.100): 65500 data bytes

--- 192.168.8.100 ping statistics ---
1 packets transmitted, 0 packets received, 100.0% packet loss
"#;
    let out = finish_run(
        "ping -s 65500 192.168.8.100".into(),
        1,
        35,
        cmd_out(false, false, stdout, "ping: sendto: Message too long"),
    );
    assert_eq!(
        execution_error_kind(&out),
        Some(PingExecErrorKind::Execution)
    );
    assert!(execution_error(&out).unwrap().contains("Message too long"));
}

#[test]
fn test_nonzero_exit_with_valid_partial_loss_is_not_execution_error() {
    let stdout = r#"
Pinging 192.0.2.1 with 32 bytes of data:
Reply from 192.0.2.1: bytes=32 time=2ms TTL=64
Request timed out.

Ping statistics for 192.0.2.1:
    Packets: Sent = 2, Received = 1, Lost = 1 (50% loss),
Approximate round trip times in milli-seconds:
    Minimum = 2ms, Maximum = 2ms, Average = 2ms
"#;
    let out = finish_run(
        "ping 192.0.2.1".into(),
        2,
        40,
        cmd_out(false, false, stdout, ""),
    );
    assert!(out.ok);
    assert_eq!((out.sent, out.received, out.lost), (2, 1, 1));
    assert_eq!(execution_error_kind(&out), None);
}

#[test]
fn test_legacy_raw_error_markers_remain_classifiable() {
    let timed_out = PingOut {
        raw: "partial\n(ping 命令超时被强制结束)".into(),
        ..Default::default()
    };
    assert_eq!(
        execution_error_kind(&timed_out),
        Some(PingExecErrorKind::Timeout)
    );

    let spawn = PingOut {
        raw: "启动命令失败: ping (not found)".into(),
        ..Default::default()
    };
    assert_eq!(execution_error_kind(&spawn), Some(PingExecErrorKind::Spawn));
}

fn ping_req(v6: bool) -> PingReq {
    PingReq {
        dst: "192.168.1.3".into(),
        src: "192.168.1.2".into(),
        count: 0,
        payload: 70_000,
        v6,
    }
}

#[test]
fn commands_fit_the_system() {
    let (program, args) = build(&ping_req(false), true);
    assert_eq!(
        command_line(&program, &args),
        "ping 192.168.1.3 -S 192.168.1.2 -n 1 -l 65500 -4"
    );
    let (program, args) = build(&ping_req(true), true);
    assert_eq!(
        command_line(&program, &args),
        "ping 192.168.1.3 -S 192.168.1.2 -n 1 -l 65500 -6"
    );
    let (program, args) = build(&ping_req(true), false);
    assert_eq!(
        command_line(&program, &args),
        "ping6 -c 1 -S 192.168.1.2 -s 65500 192.168.1.3"
    );
    let (program, _) = build(&ping_req(false), false);
    assert_eq!(program, "ping");
    assert_eq!(timeout_secs(0), 35);
    assert_eq!(timeout_secs(4), 50);
}

#[test]
fn marks_are_read_back_from_any_output() {
    for raw in ["", "text", "text\n", "[CPE_PING_EXEC_ERROR:SPAWN] older\n", "x\r\ny"] {
        for kind in [
            PingExecErrorKind::Spawn,
            PingExecErrorKind::Timeout,
            PingExecErrorKind::Execution,
        ] {
            let failure = PingExecFailure {
                kind,
                detail: "a] b: 无法".into(),
            };
            let out = PingOut {
                raw: append_execution_error(raw.into(), &failure),
                ..Default::default()
            };
            assert_eq!(execution_error_kind(&out), Some(kind));
            assert_eq!(execution_error(&out).as_deref(), Some("a] b: 无法"));
        }
    }
}

#[test]
fn commands_without_a_summary_failed() {
    for (ok, text) in [
        (true, "ping 命令结束，但没有返回可识别的数据包统计"),
        (false, "ping 命令异常退出，且没有返回可识别的数据包统计"),
    ] {
        let out = finish_run("ping".into(), 2, 40, cmd_out(ok, false, "nothing", ""));
        assert_eq!(execution_error(&out).as_deref(), Some(text));
        assert_eq!(out.raw, format!("nothing\n[CPE_PING_EXEC_ERROR:EXECUTION] {text}"));
        assert_eq!(out.cmd, "ping");
        assert_eq!((out.sent, out.received, out.lost), (2, 0, 2));
    }
    let bare = PingOut {
        raw: "nothing".into(),
        ..Default::default()
    };
    assert_eq!(
        execution_error(&bare).as_deref(),
        Some("ping 输出缺少可识别的数据包统计")
    );
}

#[test]
fn a_reply_within_a_millisecond_took_no_time() {
    let text = "Reply from 10.0.0.1: bytes=32 time<1ms TTL=64\n\
                Packets: Sent = 1, Received = 1, Lost = 0 (0% loss),\n\
                Minimum = <1ms, Maximum = <1ms, Average = <1ms\n";
    let r = parse(text, 1);
    assert!(r.ok);
    assert_eq!(r.rtt_min.as_deref(), Some("0"));
    assert_eq!(r.rtt_max.as_deref(), Some("0"));
}

struct ByteGenerator(u64);

impl ByteGenerator {
    fn new(seed: u64) -> Self {
        Self(seed.max(1))
    }

    fn next_u32(&mut self) -> u32 {
        self.0 = self
            .0
            .wrapping_mul(6_364_136_223_846_793_005)
            .wrapping_add(1_442_695_040_888_963_407);
        (self.0 >> 16) as u32
    }

    fn input(&mut self) -> String {
        let len = (self.next_u32() as usize) % 384;
        let mut bytes = Vec::with_capacity(len + 96);
        for _ in 0..len {
            bytes.push(self.next_u32() as u8);
        }
        match self.next_u32() % 5 {
            0 => bytes.extend_from_slice(b"[ 5] 0.00-1.00 sec 1.00 MBytes 8.00 Mbits/sec\n"),
            1 => bytes.extend_from_slice(b"Total Bytes Recv : 1000\nTotal Time : 10 ms.\n"),
            2 => bytes.extend_from_slice(
                "时间<1ms\nReply from 192.0.2.1: bytes=32 time=1ms\n".as_bytes(),
            ),
            3 => bytes.extend_from_slice(b"\x1b[31m[10.000] 2.6x^9 1.2x^6 8 1 0 0\x1b[0m\n"),
            _ => bytes.extend_from_slice(b"SuccessfulConnections [1] NetworkErrors [0]\n"),
        }
        String::from_utf8_lossy(&bytes).into_owned()
    }
}

fn parser_snapshot(input: &str) -> (u32, u32, u32, bool, bool) {
    let ping = parse(input, 32);
    let finite = loss_pct(&ping).is_finite();
    (ping.sent, ping.received, ping.lost, ping.ok, finite)
}

/// Parses the generated outputs of some seeds; together the tests below take seeds 1 to 2000.
fn parse_seeds(seeds: std::ops::RangeInclusive<u64>) {
    for seed in seeds {
        let mut generator = ByteGenerator::new(seed);
        let input = generator.input();
        let first = parser_snapshot(&input);
        let second = parser_snapshot(&input);
        assert_eq!(first, second, "parser is not deterministic for seed {seed}");

        let (sent, received, lost, _, finite_loss) = second;
        assert!(received <= sent, "received exceeds sent for seed {seed}");
        assert!(lost <= sent, "lost exceeds sent for seed {seed}");
        assert!(
            finite_loss,
            "loss percentage became non-finite for seed {seed}"
        );
        assert_eq!(lost, sent - received, "packets do not add up for seed {seed}");
    }
}

#[test]
fn parser_fuzz_smoke_is_deterministic_and_never_panics() {
    parse_seeds(1..=200);
}

#[test]
fn parser_fuzz_smoke_is_deterministic_and_never_panics_from_201() {
    parse_seeds(201..=400);
}

#[test]
fn parser_fuzz_smoke_is_deterministic_and_never_panics_from_401() {
    parse_seeds(401..=600);
}

#[test]
fn parser_fuzz_smoke_is_deterministic_and_never_panics_from_601() {
    parse_seeds(601..=800);
}

#[test]
fn parser_fuzz_smoke_is_deterministic_and_never_panics_from_801() {
    parse_seeds(801..=1000);
}

#[test]
fn parser_fuzz_smoke_is_deterministic_and_never_panics_from_1001() {
    parse_seeds(1001..=1200);
}

#[test]
fn parser_fuzz_smoke_is_deterministic_and_never_panics_from_1201() {
    parse_seeds(1201..=1400);
}

#[test]
fn parser_fuzz_smoke_is_deterministic_and_never_panics_from_1401() {
    parse_seeds(1401..=1600);
}

#[test]
fn parser_fuzz_smoke_is_deterministic_and_never_panics_from_1601() {
    parse_seeds(1601..=1800);
}

#[test]
fn parser_fuzz_smoke_is_deterministic_and_never_panics_from_1801() {
    parse_seeds(1801..=2000);
}

#[test]
fn parser_property_valid_fixtures_preserve_basic_protocol_invariants() {
    let ping = parse(
        "Reply from 192.0.2.2: bytes=32 time=1ms\n\
         Reply from 192.0.2.2: bytes=32 time=2ms\n\
         Packets: Sent = 2, Received = 2, Lost = 0 (0% loss)",
        2,
    );
    assert!(ping.ok);
    assert_eq!((ping.sent, ping.received, ping.lost), (2, 2, 0));
    assert!((0.0..=100.0).contains(&loss_pct(&ping)));
}

#[test]
fn the_telling_line_is_found_by_its_small_letters() {
    let rows = vec!["开始".to_string(), " PING: 传输失败，常规故障 ".to_string()];
    let lows = vec!["开始".to_string(), " ping: 传输失败，常规故障 ".to_string()];
    let low = "开始\n ping: 传输失败，常规故障 ";
    assert_eq!(
        find_execution_error(&rows, &lows, low).as_deref(),
        Some("PING: 传输失败，常规故障")
    );
    assert_eq!(find_execution_error(&rows, &lows, "开始"), None);
    assert_eq!(
        find_execution_error(&rows, &vec!["".into(), "".into()], low).as_deref(),
        Some("开始"),
        "the first line that is not blank stands in"
    );
}

#[test]
fn a_reply_has_a_time_and_a_form() {
    let found = vec![Captures { groups: Vec::new() }];
    let none = Vec::new();
    assert!(is_reply(&found, &found, &none));
    assert!(is_reply(&found, &none, &found));
    assert!(!is_reply(&found, &none, &none));
    assert!(!is_reply(&none, &found, &found));
}
