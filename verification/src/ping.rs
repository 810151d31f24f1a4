//! Pings: the command, what its output says, and when the command itself failed.
//!
//! The output of `ping` is read in three forms: that of Windows in Chinese and in English, and that
//! of BSD and macOS.
use vstd::prelude::*;
use vstd::string::*;
use crate::pattern::{captures, group_of, matches_of, Captures};
use crate::protocol::{PingOut, PingOutView, PingReq};
use crate::text::{
    begins, blank, cat3, cat4, contains, cut_at, decimal, decimal_text, ends, find_text,
    group_views, has, in_small, is_blank, join, joined, lemma_last_line, lemma_lines_are_single,
    lines, lines_of, occurs_at, opt_text, owned, parse_unsigned, read_unsigned, same, split_once_at,
    starts_with, strip_prefix, strip_suffix, texts, to_lower, trim, trim_start, trimmed,
    trimmed_start, views,
};

verus! {

/// The largest payload in bytes.
pub const MAX_PAYLOAD: u32 = 65_500;

/// What a line starts with that marks a failure of the command.
pub const EXEC_ERROR_PREFIX: &'static str = "[CPE_PING_EXEC_ERROR:";

// ---------------------------------------------------------------------------
// The command
// ---------------------------------------------------------------------------

/// A count, but at least one.
pub open spec fn count_or_one(count: u32) -> u32 {
    if count < 1 {
        1
    } else {
        count
    }
}

/// A payload, but at most the largest.
pub open spec fn payload_or_max(payload: u32) -> u32 {
    if payload > MAX_PAYLOAD {
        MAX_PAYLOAD
    } else {
        payload
    }
}

/// The arguments of `ping`, on Windows or elsewhere.
pub open spec fn ping_args(req: PingReq, windows: bool) -> Seq<Seq<char>> {
    let count = decimal(count_or_one(req.count) as nat);
    let payload = decimal(payload_or_max(req.payload) as nat);
    if windows {
        seq![
            req.dst@,
            "-S"@,
            req.src@,
            "-n"@,
            count,
            "-l"@,
            payload,
            if req.v6 {
                "-6"@
            } else {
                "-4"@
            },
        ]
    } else {
        seq!["-c"@, count, "-S"@, req.src@, "-s"@, payload, req.dst@]
    }
}

/// The program that pings.
pub open spec fn ping_program(req: PingReq, windows: bool) -> Seq<char> {
    if req.v6 && !windows {
        "ping6"@
    } else {
        "ping"@
    }
}

/// The program that pings, and its arguments.
pub fn build(req: &PingReq, windows: bool) -> (r: (String, Vec<String>))
    ensures
        r.0@ == ping_program(*req, windows),
        texts(r.1@) == ping_args(*req, windows),
{
    broadcast use group_views;

    let count = decimal_text(
        if req.count < 1 {
            1u64
        } else {
            req.count as u64
        },
    );
    let payload = decimal_text(
        if req.payload > MAX_PAYLOAD {
            MAX_PAYLOAD as u64
        } else {
            req.payload as u64
        },
    );
    let mut args: Vec<String> = Vec::new();
    let program = if windows {
        args.push(req.dst.clone());
        args.push(owned("-S"));
        args.push(req.src.clone());
        args.push(owned("-n"));
        args.push(count);
        args.push(owned("-l"));
        args.push(payload);
        args.push(
            if req.v6 {
                owned("-6")
            } else {
                owned("-4")
            },
        );
        "ping"
    } else {
        args.push(owned("-c"));
        args.push(count);
        args.push(owned("-S"));
        args.push(req.src.clone());
        args.push(owned("-s"));
        args.push(payload);
        args.push(req.dst.clone());
        if req.v6 {
            "ping6"
        } else {
            "ping"
        }
    };
    assert(texts(args@) =~= ping_args(*req, windows));
    (owned(program), args)
}

/// The command in one line.
pub fn command_line(program: &str, args: &Vec<String>) -> (r: String)
    ensures
        r@ == program@ + " "@ + joined(texts(args@), " "@),
{
    let rest = join(args, " ");
    cat3(program, " ", rest.as_str())
}

/// After how many seconds a ping is given up.
pub fn timeout_secs(count: u32) -> (r: u64)
    ensures
        r == count_or_one(count) * 5 + 30,
{
    let n: u64 = if count < 1 {
        1
    } else {
        count as u64
    };
    n * 5 + 30
}

// ---------------------------------------------------------------------------
// Packets
// ---------------------------------------------------------------------------

/// What finds the packet summary of Windows in Chinese.
pub const SUMMARY_CN: &'static str = r"(?s)已发送\s*=\s*(\d+).*?已接收\s*=\s*(\d+).*?丢失\s*=\s*(\d+).*?\((\d+(?:\.\d+)?)%\s*丢失\)";

/// What finds the packet summary of Windows in English.
pub const SUMMARY_EN: &'static str = r"(?si)Sent\s*=\s*(\d+).*?Received\s*=\s*(\d+).*?Lost\s*=\s*(\d+).*?\((\d+(?:\.\d+)?)%\s*loss\)";

/// What finds the packet summary of BSD.
pub const SUMMARY_BSD: &'static str = r"(?i)(\d+)\s+packets transmitted,\s*(\d+)\s+(?:packets\s+)?received,\s*(\d+(?:\.\d+)?)%\s+packet loss";

/// The packets sent and received, in the groups of a summary.
pub open spec fn packets_in(found: Seq<Option<Seq<char>>>, fallback: u32) -> (u32, u32) {
    (
        match read_unsigned(group_of(found, 1), u32::MAX as nat) {
            Some(n) => n as u32,
            None => fallback,
        },
        match read_unsigned(group_of(found, 2), u32::MAX as nat) {
            Some(n) => n as u32,
            None => 0,
        },
    )
}

/// The packets sent and received, in the first summary that is there: in Chinese, in English, of BSD.
pub open spec fn summary_of(
    cn: Seq<Seq<Option<Seq<char>>>>,
    en: Seq<Seq<Option<Seq<char>>>>,
    bsd: Seq<Seq<Option<Seq<char>>>>,
    fallback: u32,
) -> Option<(u32, u32)> {
    if cn.len() > 0 {
        Some(packets_in(cn[0], fallback))
    } else if en.len() > 0 {
        Some(packets_in(en[0], fallback))
    } else if bsd.len() > 0 {
        Some(packets_in(bsd[0], fallback))
    } else {
        None
    }
}

/// The packets sent and received, in the groups of a summary.
pub fn read_packets(found: &Captures, fallback: u32) -> (r: (u32, u32))
    ensures
        r == packets_in(found@, fallback),
{
    let sent = found.group(1);
    let received = found.group(2);
    (
        match parse_unsigned(sent.as_str(), u32::MAX as u64) {
            Some(n) => n as u32,
            None => fallback,
        },
        match parse_unsigned(received.as_str(), u32::MAX as u64) {
            Some(n) => n as u32,
            None => 0,
        },
    )
}

/// The packets sent and received, in the first of three summaries that is there.
pub fn summary_from(
    cn: &Vec<Captures>,
    en: &Vec<Captures>,
    bsd: &Vec<Captures>,
    fallback: u32,
) -> (r: Option<(u32, u32)>)
    ensures
        r == summary_of(views(cn@), views(en@), views(bsd@), fallback),
{
    if cn.len() > 0 {
        assert(views(cn@)[0] == cn@[0]@);
        Some(read_packets(&cn[0], fallback))
    } else if en.len() > 0 {
        assert(views(en@)[0] == en@[0]@);
        Some(read_packets(&en[0], fallback))
    } else if bsd.len() > 0 {
        assert(views(bsd@)[0] == bsd@[0]@);
        Some(read_packets(&bsd[0], fallback))
    } else {
        None
    }
}

/// The packets sent and received, as the summary in an output tells them.
pub open spec fn summary_in(text: Seq<char>, fallback: u32) -> Option<(u32, u32)> {
    summary_of(
        matches_of(SUMMARY_CN@, text),
        matches_of(SUMMARY_EN@, text),
        matches_of(SUMMARY_BSD@, text),
        fallback,
    )
}

/// The packets sent and received, as the summary in an output tells them.
pub fn packet_summary(text: &str, fallback_count: u32) -> (r: Option<(u32, u32)>)
    ensures
        r == summary_in(text@, fallback_count),
{
    let cn = captures(SUMMARY_CN, text);
    let en = captures(SUMMARY_EN, text);
    let bsd = captures(SUMMARY_BSD, text);
    summary_from(&cn, &en, &bsd, fallback_count)
}

/// Whether an output holds a packet summary.
pub fn has_packet_summary(text: &str) -> (r: bool)
    ensures
        r == summary_in(text@, 0) is Some,
{
    packet_summary(text, 0).is_some()
}

/// What finds a reply of Windows.
pub const REPLY_WINDOWS: &'static str = r"(?i)(?:的回复[:：]|Reply from\b)";

/// What finds a reply of BSD.
pub const REPLY_BSD: &'static str = r"(?i)\bbytes from\b.*\bicmp_seq[=:]\s*\d+";

/// What finds a round-trip time.
pub const REPLY_TIME: &'static str = r"(?i)(?:时间|time)\s*[<=]\s*\d+(?:[\.,]\d+)?";

/// Whether a line tells of an echo reply: a reply with a round-trip time. Lines about hosts that
/// cannot be reached, or about redirects, have none.
pub open spec fn is_echo(line: Seq<char>) -> bool {
    matches_of(REPLY_TIME@, line).len() > 0 && (matches_of(REPLY_WINDOWS@, line).len() > 0
        || matches_of(REPLY_BSD@, line).len() > 0)
}

/// How many of the first `n` lines tell of echo replies.
pub open spec fn echoes_to(rows: Seq<Seq<char>>, n: int) -> nat
    decreases n,
{
    if n <= 0 {
        0
    } else {
        echoes_to(rows, n - 1) + if is_echo(rows[n - 1]) {
            1nat
        } else {
            0
        }
    }
}

/// Whether a line tells of an echo reply, by what was found in it: a time, and a reply in the form of
/// Windows or of BSD.
pub fn is_reply(time: &Vec<Captures>, windows: &Vec<Captures>, bsd: &Vec<Captures>) -> (r: bool)
    ensures
        r == (time@.len() > 0 && (windows@.len() > 0 || bsd@.len() > 0)),
{
    time.len() > 0 && (windows.len() > 0 || bsd.len() > 0)
}

/// How many lines of an output tell of echo replies, counted in 32 bits.
pub open spec fn echoes_in(text: Seq<char>) -> u32 {
    (echoes_to(lines_of(text), lines_of(text).len() as int) % 0x1_0000_0000) as u32
}

/// How many lines of an output tell of echo replies.
pub fn count_echo_replies(text: &str) -> (r: u32)
    ensures
        r == echoes_in(text@),
{
    let rows = lines(text);
    let ghost all = lines_of(text@);
    assert(all.len() == rows@.len());
    let mut n: u64 = 0;
    let mut i: usize = 0;
    while i < rows.len()
        invariant
            i <= rows@.len(),
            all == texts(rows@),
            all == lines_of(text@),
            all.len() == rows@.len(),
            n == echoes_to(all, i as int),
            n <= i,
        decreases rows@.len() - i,
    {
        assert(all[i as int] == rows@[i as int]@);
        let line = rows[i].as_str();
        let time = captures(REPLY_TIME, line);
        assert(views(time@).len() == time@.len());
        if time.len() > 0 {
            let windows = captures(REPLY_WINDOWS, line);
            let bsd = captures(REPLY_BSD, line);
            assert(views(windows@).len() == windows@.len() && views(bsd@).len() == bsd@.len());
            if is_reply(&time, &windows, &bsd) {
                n += 1;
            }
        }
        i += 1;
    }
    (n % 0x1_0000_0000) as u32
}

// ---------------------------------------------------------------------------
// Round-trip times
// ---------------------------------------------------------------------------

/// What finds the round-trip times of Windows in Chinese.
pub const RTT_CN: &'static str = r"(?s)最短\s*=\s*(<?\d+)ms.*?最长\s*=\s*(<?\d+)ms.*?平均\s*=\s*(<?\d+)ms";

/// What finds the round-trip times of Windows in English.
pub const RTT_EN: &'static str = r"(?si)Minimum\s*=\s*(<?\d+)ms.*?Maximum\s*=\s*(<?\d+)ms.*?Average\s*=\s*(<?\d+)ms";

/// What finds the round-trip times of BSD.
pub const RTT_BSD: &'static str = r"(?:round-trip|rtt)[^=]*=\s*(\d+(?:\.\d+)?)/(\d+(?:\.\d+)?)/(\d+(?:\.\d+)?)";

/// A time as Windows spells it; less than a millisecond counts as none.
pub open spec fn spelled_ms(s: Seq<char>) -> Seq<char> {
    if begins(trimmed(s), "<"@) {
        "0"@
    } else {
        trimmed(s)
    }
}

/// A time as Windows spells it.
pub fn parse_ms(s: &str) -> (r: String)
    ensures
        r@ == spelled_ms(s@),
{
    let t = trim(s);
    if starts_with(t, "<") {
        owned("0")
    } else {
        owned(t)
    }
}

/// The shortest, the mean and the longest round-trip time. Windows names the longest before the mean,
/// BSD behind it.
pub open spec fn times_of(
    cn: Seq<Seq<Option<Seq<char>>>>,
    en: Seq<Seq<Option<Seq<char>>>>,
    bsd: Seq<Seq<Option<Seq<char>>>>,
) -> Option<(Seq<char>, Seq<char>, Seq<char>)> {
    if cn.len() > 0 {
        Some(
            (
                spelled_ms(group_of(cn[0], 1)),
                spelled_ms(group_of(cn[0], 3)),
                spelled_ms(group_of(cn[0], 2)),
            ),
        )
    } else if en.len() > 0 {
        Some(
            (
                spelled_ms(group_of(en[0], 1)),
                spelled_ms(group_of(en[0], 3)),
                spelled_ms(group_of(en[0], 2)),
            ),
        )
    } else if bsd.len() > 0 {
        Some((group_of(bsd[0], 1), group_of(bsd[0], 2), group_of(bsd[0], 3)))
    } else {
        None
    }
}

/// The times in the groups of a match of Windows.
fn windows_times(found: &Captures) -> (r: (String, String, String))
    ensures
        r.0@ == spelled_ms(group_of(found@, 1)),
        r.1@ == spelled_ms(group_of(found@, 3)),
        r.2@ == spelled_ms(group_of(found@, 2)),
{
    let shortest = found.group(1);
    let longest = found.group(2);
    let mean = found.group(3);
    (parse_ms(shortest.as_str()), parse_ms(mean.as_str()), parse_ms(longest.as_str()))
}

/// The shortest, the mean and the longest round-trip time.
pub fn times_from(cn: &Vec<Captures>, en: &Vec<Captures>, bsd: &Vec<Captures>) -> (r: Option<
    (String, String, String),
>)
    ensures
        match r {
            Some(times) => times_of(views(cn@), views(en@), views(bsd@)) == Some(
                (times.0@, times.1@, times.2@),
            ),
            None => times_of(views(cn@), views(en@), views(bsd@)) is None,
        },
{
    if cn.len() > 0 {
        assert(views(cn@)[0] == cn@[0]@);
        Some(windows_times(&cn[0]))
    } else if en.len() > 0 {
        assert(views(en@)[0] == en@[0]@);
        Some(windows_times(&en[0]))
    } else if bsd.len() > 0 {
        assert(views(bsd@)[0] == bsd@[0]@);
        Some((bsd[0].group(1), bsd[0].group(2), bsd[0].group(3)))
    } else {
        None
    }
}

// ---------------------------------------------------------------------------
// The result
// ---------------------------------------------------------------------------

/// The smaller of two numbers.
pub open spec fn lesser(a: u32, b: u32) -> u32 {
    if a < b {
        a
    } else {
        b
    }
}

/// What came of a ping: a packet counts as received where a line tells of its echo, and no more than
/// the summary says were received or sent; without a summary all that were asked for were sent.
pub open spec fn outcome(
    echoes: u32,
    summary: Option<(u32, u32)>,
    times: Option<(Seq<char>, Seq<char>, Seq<char>)>,
    count: u32,
) -> PingOutView {
    let (sent, told_received) = match summary {
        Some(s) => s,
        None => (count, echoes),
    };
    let received = lesser(lesser(echoes, told_received), sent);
    let ok = received > 0;
    PingOutView {
        ok,
        sent,
        received,
        lost: (sent - received) as u32,
        rtt_min: match times {
            Some(t) => if ok {
                Some(t.0)
            } else {
                None
            },
            None => None,
        },
        rtt_avg: match times {
            Some(t) => if ok {
                Some(t.1)
            } else {
                None
            },
            None => None,
        },
        rtt_max: match times {
            Some(t) => if ok {
                Some(t.2)
            } else {
                None
            },
            None => None,
        },
        cmd: Seq::empty(),
        raw: Seq::empty(),
    }
}

/// What came of a ping, from what was found in its output.
pub fn outcome_from(
    echoes: u32,
    summary: Option<(u32, u32)>,
    times: Option<(String, String, String)>,
    count: u32,
) -> (r: PingOut)
    ensures
        r@ == outcome(
            echoes,
            summary,
            match times {
                Some(t) => Some((t.0@, t.1@, t.2@)),
                None => None,
            },
            count,
        ),
{
    let (sent, told_received) = match summary {
        Some(s) => s,
        None => (count, echoes),
    };
    let heard: u32 = if echoes < told_received {
        echoes
    } else {
        told_received
    };
    let received: u32 = if heard < sent {
        heard
    } else {
        sent
    };
    let ok = received > 0;
    let (rtt_min, rtt_avg, rtt_max) = match times {
        Some(t) => if ok {
            (Some(t.0), Some(t.1), Some(t.2))
        } else {
            (None, None, None)
        },
        None => (None, None, None),
    };
    let r = PingOut {
        ok,
        sent,
        received,
        lost: sent - received,
        rtt_min,
        rtt_avg,
        rtt_max,
        cmd: String::new(),
        raw: String::new(),
    };
    assert(r.cmd@ =~= Seq::<char>::empty());
    assert(r.raw@ =~= Seq::<char>::empty());
    r
}

/// What came of a ping, as its output tells.
pub open spec fn parsed(text: Seq<char>, count: u32) -> PingOutView {
    outcome(
        echoes_in(text),
        summary_in(text, count),
        times_of(
            matches_of(RTT_CN@, text),
            matches_of(RTT_EN@, text),
            matches_of(RTT_BSD@, text),
        ),
        count,
    )
}

/// What came of a ping, as its output tells; where it tells nothing, all packets were lost.
pub fn parse(text: &str, count: u32) -> (r: PingOut)
    ensures
        r@ == parsed(text@, count),
{
    let echoes: u32 = count_echo_replies(text);
    let summary = packet_summary(text, count);
    // Without a reply there are no times to show.
    if echoes == 0 {
        return outcome_from(echoes, summary, None, count);
    }
    let cn = captures(RTT_CN, text);
    let en = captures(RTT_EN, text);
    let bsd = captures(RTT_BSD, text);
    let times = times_from(&cn, &en, &bsd);
    outcome_from(echoes, summary, times, count)
}

/// Packets are received or lost, a ping succeeds where some were received, no more count than lines
/// tell of, and times are known only of those that succeed.
pub proof fn lemma_packets_add_up(
    echoes: u32,
    summary: Option<(u32, u32)>,
    times: Option<(Seq<char>, Seq<char>, Seq<char>)>,
    count: u32,
)
    ensures
        ({
            let r = outcome(echoes, summary, times, count);
            &&& r.sent == r.received + r.lost
            &&& r.ok == (r.received > 0)
            &&& r.received <= echoes
            &&& summary matches Some(s) ==> r.received <= s.1 && r.sent == s.0
            &&& !r.ok ==> r.rtt_min is None && r.rtt_avg is None && r.rtt_max is None
        }),
{
}

// ---------------------------------------------------------------------------
// Failures of the command
// ---------------------------------------------------------------------------

/// How a command failed.
#[derive(Clone, Copy, Debug, PartialEq, Eq, Structural)]
pub enum PingExecErrorKind {
    /// It did not start.
    Spawn,
    /// It did not end in time.
    Timeout,
    /// It ran and failed.
    Execution,
}

impl PingExecErrorKind {
    /// The kind's code.
    pub open spec fn spelled(self) -> Seq<char> {
        match self {
            PingExecErrorKind::Spawn => "SPAWN"@,
            PingExecErrorKind::Timeout => "TIMEOUT"@,
            PingExecErrorKind::Execution => "EXECUTION"@,
        }
    }

    /// The kind's code.
    pub fn code(self) -> (r: &'static str)
        ensures
            r@ == self.spelled(),
    {
        match self {
            PingExecErrorKind::Spawn => "SPAWN",
            PingExecErrorKind::Timeout => "TIMEOUT",
            PingExecErrorKind::Execution => "EXECUTION",
        }
    }

    /// The kind with a code.
    pub open spec fn of_code(code: Seq<char>) -> Option<PingExecErrorKind> {
        if code == "SPAWN"@ {
            Some(PingExecErrorKind::Spawn)
        } else if code == "TIMEOUT"@ {
            Some(PingExecErrorKind::Timeout)
        } else if code == "EXECUTION"@ {
            Some(PingExecErrorKind::Execution)
        } else {
            None
        }
    }

    /// The kind with a code.
    pub fn from_code(code: &str) -> (r: Option<PingExecErrorKind>)
        ensures
            r == PingExecErrorKind::of_code(code@),
    {
        if same(code, "SPAWN") {
            Some(PingExecErrorKind::Spawn)
        } else if same(code, "TIMEOUT") {
            Some(PingExecErrorKind::Timeout)
        } else if same(code, "EXECUTION") {
            Some(PingExecErrorKind::Execution)
        } else {
            None
        }
    }
}

/// Codes are read back.
pub proof fn lemma_codes_read_back(kind: PingExecErrorKind)
    ensures
        PingExecErrorKind::of_code(kind.spelled()) == Some(kind),
{
    reveal_strlit("SPAWN");
    reveal_strlit("TIMEOUT");
    reveal_strlit("EXECUTION");
    assert("SPAWN"@.len() == 5);
    assert("TIMEOUT"@.len() == 7);
    assert("EXECUTION"@.len() == 9);
}

/// A failure of the command.
#[derive(Debug)]
pub struct PingExecFailure {
    pub kind: PingExecErrorKind,
    pub detail: String,
}

/// What a [`PingExecFailure`] holds.
pub ghost struct PingExecFailureView {
    pub kind: PingExecErrorKind,
    pub detail: Seq<char>,
}

impl View for PingExecFailure {
    type V = PingExecFailureView;

    open spec fn view(&self) -> PingExecFailureView {
        PingExecFailureView { kind: self.kind, detail: self.detail@ }
    }
}

/// What came of running a command.
#[derive(Debug, Default)]
pub struct CmdOut {
    pub ok: bool,
    pub timed_out: bool,
    pub stderr: String,
    /// All that was printed.
    pub raw: String,
}

/// Texts that tell of a failure of the command, in small letters.
pub open spec fn failure_markers() -> Seq<Seq<char>> {
    seq![
        "ping: transmit failed"@,
        "ping: 传输失败"@,
        "ping：传输失败"@,
        "general failure"@,
        "常规故障"@,
        "一般故障"@,
        "can't assign requested address"@,
        "cannot assign requested address"@,
        "can't bind"@,
        "cannot bind"@,
        "invalid source address"@,
        "bad value for option -s"@,
        "operation not permitted"@,
        "permission denied"@,
        "network is unreachable"@,
        "no route to host"@,
        "sendto: message too long"@,
        "message too long"@,
        "消息太长"@,
    ]
}

/// Texts that tell of a failure of the command.
fn list_failure_markers() -> (r: Vec<&'static str>)
    ensures
        r@.len() == failure_markers().len(),
        forall|i: int| 0 <= i < r@.len() ==> (#[trigger] r@[i])@ == failure_markers()[i],
{
    let mut r: Vec<&'static str> = Vec::new();
    r.push("ping: transmit failed");
    r.push("ping: 传输失败");
    r.push("ping：传输失败");
    r.push("general failure");
    r.push("常规故障");
    r.push("一般故障");
    r.push("can't assign requested address");
    r.push("cannot assign requested address");
    r.push("can't bind");
    r.push("cannot bind");
    r.push("invalid source address");
    r.push("bad value for option -s");
    r.push("operation not permitted");
    r.push("permission denied");
    r.push("network is unreachable");
    r.push("no route to host");
    r.push("sendto: message too long");
    r.push("message too long");
    r.push("消息太长");
    r
}

/// The first line from `i` on that holds a marker, whatever its case; `lows` are the lines in small
/// letters.
pub open spec fn line_with(
    rows: Seq<Seq<char>>,
    lows: Seq<Seq<char>>,
    marker: Seq<char>,
    i: int,
) -> Option<Seq<char>>
    decreases rows.len() - i,
{
    if i < 0 || i >= rows.len() || i >= lows.len() {
        None
    } else if has(lows[i], marker) {
        Some(rows[i])
    } else {
        line_with(rows, lows, marker, i + 1)
    }
}

/// The first line from `i` on that is not blank.
pub open spec fn line_of_text(rows: Seq<Seq<char>>, i: int) -> Option<Seq<char>>
    decreases rows.len() - i,
{
    if i < 0 || i >= rows.len() {
        None
    } else if !blank(rows[i]) {
        Some(rows[i])
    } else {
        line_of_text(rows, i + 1)
    }
}

/// The line that tells of a failure; `lows` are the lines in small letters.
pub open spec fn telling_line(
    rows: Seq<Seq<char>>,
    lows: Seq<Seq<char>>,
    marker: Seq<char>,
) -> Seq<char> {
    match line_with(rows, lows, marker, 0) {
        Some(line) => trimmed(line),
        None => match line_of_text(rows, 0) {
            Some(line) => trimmed(line),
            None => trimmed("ping 命令执行失败"@),
        },
    }
}

/// What an output tells of a failure, by the markers from `i` on: `rows` are its lines, `lows` its
/// lines in small letters and `low` all of it in small letters.
pub open spec fn explicit_in(
    rows: Seq<Seq<char>>,
    lows: Seq<Seq<char>>,
    low: Seq<char>,
    i: int,
) -> Option<Seq<char>>
    decreases failure_markers().len() - i,
{
    if i < 0 || i >= failure_markers().len() {
        None
    } else if has(low, failure_markers()[i]) {
        Some(telling_line(rows, lows, failure_markers()[i]))
    } else {
        explicit_in(rows, lows, low, i + 1)
    }
}

/// Lines in small letters.
pub open spec fn all_small(rows: Seq<Seq<char>>) -> Seq<Seq<char>> {
    Seq::new(rows.len(), |i: int| in_small(rows[i]))
}

/// What an output tells of a failure, by the markers from `i` on.
pub open spec fn explicit_from(raw: Seq<char>, i: int) -> Option<Seq<char>> {
    explicit_in(lines_of(raw), all_small(lines_of(raw)), in_small(raw), i)
}

/// The line that tells of a failure.
fn find_telling_line(rows: &Vec<String>, lows: &Vec<String>, marker: &str) -> (r: String)
    ensures
        r@ == telling_line(texts(rows@), texts(lows@), marker@),
{
    let ghost all = texts(rows@);
    let ghost small = texts(lows@);
    assert(all.len() == rows@.len());
    assert(small.len() == lows@.len());
    let mut i: usize = 0;
    while i < rows.len() && i < lows.len()
        invariant
            i <= rows@.len(),
            all == texts(rows@),
            all.len() == rows@.len(),
            small == texts(lows@),
            small.len() == lows@.len(),
            line_with(all, small, marker@, 0) == line_with(all, small, marker@, i as int),
        decreases rows@.len() - i,
    {
        assert(all[i as int] == rows@[i as int]@);
        assert(small[i as int] == lows@[i as int]@);
        if contains(lows[i].as_str(), marker) {
            return owned(trim(rows[i].as_str()));
        }
        i += 1;
    }
    let mut k: usize = 0;
    while k < rows.len()
        invariant
            k <= rows@.len(),
            all == texts(rows@),
            all.len() == rows@.len(),
            line_with(all, small, marker@, 0) is None,
            small == texts(lows@),
            line_of_text(all, 0) == line_of_text(all, k as int),
        decreases rows@.len() - k,
    {
        assert(all[k as int] == rows@[k as int]@);
        if !is_blank(rows[k].as_str()) {
            return owned(trim(rows[k].as_str()));
        }
        k += 1;
    }
    owned(trim("ping 命令执行失败"))
}

/// What an output tells of a failure of the command: `rows` are its lines, `lows` its lines in small
/// letters and `low` all of it in small letters.
pub fn find_execution_error(rows: &Vec<String>, lows: &Vec<String>, low: &str) -> (r: Option<String>)
    ensures
        opt_text(r) == explicit_in(texts(rows@), texts(lows@), low@, 0),
{
    let ghost all = texts(rows@);
    let ghost small = texts(lows@);
    let markers = list_failure_markers();
    let mut i: usize = 0;
    while i < markers.len()
        invariant
            i <= markers@.len(),
            markers@.len() == failure_markers().len(),
            forall|k: int| 0 <= k < markers@.len() ==> (#[trigger] markers@[k])@
                == failure_markers()[k],
            all == texts(rows@),
            small == texts(lows@),
            explicit_in(all, small, low@, 0) == explicit_in(all, small, low@, i as int),
        decreases markers@.len() - i,
    {
        if contains(low, markers[i]) {
            return Some(find_telling_line(rows, lows, markers[i]));
        }
        i += 1;
    }
    None
}

/// Lines in small letters.
fn lower_lines(rows: &Vec<String>) -> (r: Vec<String>)
    ensures
        texts(r@) == all_small(texts(rows@)),
{
    broadcast use group_views;

    let ghost all = texts(rows@);
    let ghost small = all_small(all);
    assert(all.len() == rows@.len());
    let mut r: Vec<String> = Vec::new();
    let mut i: usize = 0;
    while i < rows.len()
        invariant
            i <= rows@.len(),
            all == texts(rows@),
            all.len() == rows@.len(),
            small == all_small(all),
            texts(r@) == small.take(i as int),
        decreases rows@.len() - i,
    {
        assert(all[i as int] == rows@[i as int]@);
        r.push(to_lower(rows[i].as_str()));
        assert(small.take(i as int).push(small[i as int]) =~= small.take(i + 1));
        i += 1;
    }
    assert(small.take(i as int) =~= small);
    r
}

/// What an output tells of a failure of the command.
pub fn explicit_execution_error(raw: &str) -> (r: Option<String>)
    ensures
        opt_text(r) == explicit_from(raw@, 0),
{
    let low = to_lower(raw);
    let rows = lines(raw);
    let lows = lower_lines(&rows);
    find_execution_error(&rows, &lows, low.as_str())
}

/// How a command failed, by what came of running it. A ping that ran to its end and lost packets, or
/// all of them, has not failed.
pub open spec fn failure_of(out: CmdOut, secs: u64) -> Option<PingExecFailureView> {
    if out.timed_out {
        Some(
            PingExecFailureView {
                kind: PingExecErrorKind::Timeout,
                detail: "ping 命令超过 "@ + decimal(secs as nat) + " 秒未结束，已强制终止"@,
            },
        )
    } else if begins(trimmed_start(out.stderr@), "启动命令失败:"@) {
        Some(
            PingExecFailureView {
                kind: PingExecErrorKind::Spawn,
                detail: "无法启动 ping 子进程"@,
            },
        )
    } else {
        match explicit_from(out.raw@, 0) {
            Some(detail) => Some(
                PingExecFailureView { kind: PingExecErrorKind::Execution, detail },
            ),
            None => if summary_in(out.raw@, 0) is Some {
                None
            } else {
                Some(
                    PingExecFailureView {
                        kind: PingExecErrorKind::Execution,
                        detail: if out.ok {
                            "ping 命令结束，但没有返回可识别的数据包统计"@
                        } else {
                            "ping 命令异常退出，且没有返回可识别的数据包统计"@
                        },
                    },
                )
            },
        }
    }
}

/// How a command failed, by what came of running it.
pub fn classify_execution_error(out: &CmdOut, secs: u64) -> (r: Option<PingExecFailure>)
    ensures
        crate::text::opt_view(r) == failure_of(*out, secs),
{
    if out.timed_out {
        let number = decimal_text(secs);
        return Some(
            PingExecFailure {
                kind: PingExecErrorKind::Timeout,
                detail: cat3("ping 命令超过 ", number.as_str(), " 秒未结束，已强制终止"),
            },
        );
    }
    if starts_with(trim_start(out.stderr.as_str()), "启动命令失败:") {
        return Some(
            PingExecFailure {
                kind: PingExecErrorKind::Spawn,
                detail: owned("无法启动 ping 子进程"),
            },
        );
    }
    if let Some(detail) = explicit_execution_error(out.raw.as_str()) {
        return Some(PingExecFailure { kind: PingExecErrorKind::Execution, detail });
    }
    if !has_packet_summary(out.raw.as_str()) {
        return Some(
            PingExecFailure {
                kind: PingExecErrorKind::Execution,
                detail: if out.ok {
                    owned("ping 命令结束，但没有返回可识别的数据包统计")
                } else {
                    owned("ping 命令异常退出，且没有返回可识别的数据包统计")
                },
            },
        );
    }
    None
}

/// The line that marks a failure.
pub open spec fn mark(failure: PingExecFailureView) -> Seq<char> {
    EXEC_ERROR_PREFIX@ + failure.kind.spelled() + "] "@ + failure.detail
}

/// An output that ends its last line.
pub open spec fn closed_line(raw: Seq<char>) -> Seq<char> {
    if raw.len() > 0 && !ends(raw, "\n"@) {
        raw + "\n"@
    } else {
        raw
    }
}

/// An output with a mark behind it.
pub open spec fn marked(raw: Seq<char>, failure: PingExecFailureView) -> Seq<char> {
    closed_line(raw) + mark(failure)
}

/// An output with a mark behind it.
pub fn append_execution_error(raw: String, failure: &PingExecFailure) -> (r: String)
    ensures
        r@ == marked(raw@, failure@),
{
    let line = cat4(EXEC_ERROR_PREFIX, failure.kind.code(), "] ", failure.detail.as_str());
    let mut r = raw;
    if !r.as_str().is_empty() && strip_suffix(r.as_str(), "\n").is_none() {
        r.append("\n");
    }
    r.append(line.as_str());
    r
}

/// What came of a ping and of running it: the output is marked where the command failed.
pub fn finish_run(cmd: String, count: u32, secs: u64, out: CmdOut) -> (r: PingOut)
    ensures
        r@ == (PingOutView {
            cmd: cmd@,
            raw: match failure_of(out, secs) {
                Some(failure) => marked(out.raw@, failure),
                None => out.raw@,
            },
            ..parsed(out.raw@, count)
        }),
{
    let failure = classify_execution_error(&out, secs);
    let mut r = parse(out.raw.as_str(), count);
    r.cmd = cmd;
    r.raw = match failure {
        Some(failure) => append_execution_error(out.raw, &failure),
        None => out.raw,
    };
    r
}

/// The failure that a line marks.
pub open spec fn marked_by(line: Seq<char>) -> Option<PingExecFailureView> {
    if begins(line, EXEC_ERROR_PREFIX@) {
        match cut_at(line.skip(EXEC_ERROR_PREFIX@.len() as int), "] "@) {
            Some(parts) => match PingExecErrorKind::of_code(parts.0) {
                Some(kind) => Some(PingExecFailureView { kind, detail: parts.1 }),
                None => None,
            },
            None => None,
        }
    } else {
        None
    }
}

/// The failure that the last marking line among the first `n` marks.
pub open spec fn marked_among(rows: Seq<Seq<char>>, n: int) -> Option<PingExecFailureView>
    decreases n,
{
    if n <= 0 || n > rows.len() {
        None
    } else {
        match marked_by(rows[n - 1]) {
            Some(failure) => Some(failure),
            None => marked_among(rows, n - 1),
        }
    }
}

/// How the command failed whose output this is: by the last mark or, in outputs without one, by what
/// they tell.
pub open spec fn failure_in(raw: Seq<char>) -> Option<PingExecFailureView> {
    match marked_among(lines_of(raw), lines_of(raw).len() as int) {
        Some(failure) => Some(failure),
        None => if has(raw, "(ping 命令超时被强制结束)"@) {
            Some(
                PingExecFailureView {
                    kind: PingExecErrorKind::Timeout,
                    detail: "ping 命令超时被强制结束"@,
                },
            )
        } else if has(raw, "启动命令失败:"@) {
            Some(
                PingExecFailureView {
                    kind: PingExecErrorKind::Spawn,
                    detail: "无法启动 ping 子进程"@,
                },
            )
        } else {
            match explicit_from(raw, 0) {
                Some(detail) => Some(
                    PingExecFailureView { kind: PingExecErrorKind::Execution, detail },
                ),
                None => if summary_in(raw, 0) is Some {
                    None
                } else {
                    Some(
                        PingExecFailureView {
                            kind: PingExecErrorKind::Execution,
                            detail: "ping 输出缺少可识别的数据包统计"@,
                        },
                    )
                },
            }
        },
    }
}

/// The failure that a line marks.
fn read_mark(line: &str) -> (r: Option<PingExecFailure>)
    ensures
        crate::text::opt_view(r) == marked_by(line@),
{
    if let Some(rest) = strip_prefix(line, EXEC_ERROR_PREFIX) {
        if let Some(parts) = split_once_at(rest, "] ") {
            if let Some(kind) = PingExecErrorKind::from_code(parts.0) {
                return Some(PingExecFailure { kind, detail: owned(parts.1) });
            }
        }
    }
    None
}

/// How the command failed whose output this is.
pub fn execution_failure(out: &PingOut) -> (r: Option<PingExecFailure>)
    ensures
        crate::text::opt_view(r) == failure_in(out.raw@),
{
    let raw = out.raw.as_str();
    let rows = lines(raw);
    let ghost all = lines_of(raw@);
    assert(all.len() == rows@.len());
    let mut n: usize = rows.len();
    while n > 0
        invariant
            n <= rows@.len(),
            all == texts(rows@),
            all == lines_of(raw@),
            raw@ == out.raw@,
            all.len() == rows@.len(),
            marked_among(all, all.len() as int) == marked_among(all, n as int),
        decreases n,
    {
        assert(all[n - 1] == rows@[n - 1]@);
        if let Some(failure) = read_mark(rows[n - 1].as_str()) {
            return Some(failure);
        }
        n -= 1;
    }
    if contains(raw, "(ping 命令超时被强制结束)") {
        return Some(
            PingExecFailure {
                kind: PingExecErrorKind::Timeout,
                detail: owned("ping 命令超时被强制结束"),
            },
        );
    }
    if contains(raw, "启动命令失败:") {
        return Some(
            PingExecFailure {
                kind: PingExecErrorKind::Spawn,
                detail: owned("无法启动 ping 子进程"),
            },
        );
    }
    if let Some(detail) = explicit_execution_error(raw) {
        return Some(PingExecFailure { kind: PingExecErrorKind::Execution, detail });
    }
    if !has_packet_summary(raw) {
        return Some(
            PingExecFailure {
                kind: PingExecErrorKind::Execution,
                detail: owned("ping 输出缺少可识别的数据包统计"),
            },
        );
    }
    None
}

/// How the command failed whose output this is; `None` where it ran to its end.
pub fn execution_error_kind(out: &PingOut) -> (r: Option<PingExecErrorKind>)
    ensures
        r == match failure_in(out.raw@) {
            Some(failure) => Some(failure.kind),
            None => None,
        },
{
    match execution_failure(out) {
        Some(failure) => Some(failure.kind),
        None => None,
    }
}

/// What is said of the failure of the command whose output this is.
pub fn execution_error(out: &PingOut) -> (r: Option<String>)
    ensures
        opt_text(r) == match failure_in(out.raw@) {
            Some(failure) => Some(failure.detail),
            None => None,
        },
{
    match execution_failure(out) {
        Some(failure) => Some(failure.detail),
        None => None,
    }
}

// ---------------------------------------------------------------------------
// Marks are read back
// ---------------------------------------------------------------------------

proof fn lemma_find_text_first(s: Seq<char>, part: Seq<char>, i: int, k: int)
    requires
        0 <= i <= k,
        k + part.len() <= s.len(),
        occurs_at(s, part, k),
        forall|j: int| i <= j < k ==> !occurs_at(s, part, j),
    ensures
        find_text(s, part, i) == k,
    decreases k - i,
{
    if i < k {
        assert(!occurs_at(s, part, i));
        lemma_find_text_first(s, part, i + 1, k);
    }
}

/// A mark reads as what it marks.
pub proof fn lemma_mark_reads_back(failure: PingExecFailureView)
    ensures
        marked_by(mark(failure)) == Some(failure),
{
    let prefix = EXEC_ERROR_PREFIX@;
    let code = failure.kind.spelled();
    let line = mark(failure);
    let rest = line.skip(prefix.len() as int);
    reveal_strlit("] ");
    reveal_strlit("SPAWN");
    reveal_strlit("TIMEOUT");
    reveal_strlit("EXECUTION");
    assert(line.subrange(0, prefix.len() as int) =~= prefix);
    assert(rest =~= code + "] "@ + failure.detail);
    assert(rest.subrange(code.len() as int, code.len() as int + 2) =~= "] "@);
    assert forall|j: int| 0 <= j < code.len() implies !occurs_at(rest, "] "@, j) by {
        if occurs_at(rest, "] "@, j) {
            assert(rest.subrange(j, j + 2)[0] == rest[j]);
            assert("] "@[0] == ']');
            assert(rest[j] == code[j]);
            assert(code[j] != ']');
        }
    }
    lemma_find_text_first(rest, "] "@, 0, code.len() as int);
    assert(rest.take(code.len() as int) =~= code);
    assert(rest.skip(code.len() as int + 2) =~= failure.detail);
    lemma_codes_read_back(failure.kind);
}

/// Whether a text stands on one line.
pub open spec fn single_line(s: Seq<char>) -> bool {
    forall|i: int| 0 <= i < s.len() ==> #[trigger] s[i] != '\n'
}

/// A failure that is marked behind an output is read back from it, whatever the output holds.
pub proof fn lemma_marked_failure_reads_back(raw: Seq<char>, failure: PingExecFailureView)
    requires
        single_line(failure.detail),
    ensures
        failure_in(marked(raw, failure)) == Some(failure),
{
    let head = closed_line(raw);
    let last = mark(failure);
    reveal_strlit("\n");
    reveal_strlit("] ");
    reveal_strlit("SPAWN");
    reveal_strlit("TIMEOUT");
    reveal_strlit("EXECUTION");
    reveal_strlit("[CPE_PING_EXEC_ERROR:");
    assert(head.len() > 0 ==> head.last() == '\n') by {
        if raw.len() > 0 {
            if ends(raw, "\n"@) {
                assert(raw.subrange(raw.len() - 1, raw.len() as int)[0] == raw.last());
            } else {
                assert(head.last() == '\n');
            }
        }
    }
    let code = failure.kind.spelled();
    assert forall|i: int| 0 <= i < last.len() implies last[i] != '\n' by {
        let p = EXEC_ERROR_PREFIX@.len();
        if i < p {
            assert(last[i] == EXEC_ERROR_PREFIX@[i]);
        } else if i < p + code.len() {
            assert(last[i] == code[i - p]);
        } else if i < p + code.len() + 2 {
            assert(last[i] == "] "@[i - p - code.len()]);
        } else {
            assert(last[i] == failure.detail[i - p - code.len() - 2]);
        }
    }
    lemma_last_line(head, last);
    lemma_mark_reads_back(failure);
}

proof fn lemma_trimmed_single(s: Seq<char>)
    requires
        single_line(s),
    ensures
        single_line(trimmed(s)),
{
    lemma_trimmed_start_single(s);
    lemma_trimmed_end_single(trimmed_start(s));
}

proof fn lemma_trimmed_start_single(s: Seq<char>)
    requires
        single_line(s),
    ensures
        single_line(trimmed_start(s)),
    decreases s.len(),
{
    if s.len() > 0 && crate::text::space(s[0]) {
        assert forall|i: int| 0 <= i < s.skip(1).len() implies #[trigger] s.skip(1)[i] != '\n' by {
            assert(s.skip(1)[i] == s[i + 1]);
        }
        lemma_trimmed_start_single(s.skip(1));
    }
}

proof fn lemma_trimmed_end_single(s: Seq<char>)
    requires
        single_line(s),
    ensures
        single_line(crate::text::trimmed_end(s)),
    decreases s.len(),
{
    if s.len() > 0 && crate::text::space(s.last()) {
        assert forall|i: int| 0 <= i < s.drop_last().len() implies #[trigger] s.drop_last()[i]
            != '\n' by {
            assert(s.drop_last()[i] == s[i]);
        }
        lemma_trimmed_end_single(s.drop_last());
    }
}

proof fn lemma_line_with_single(raw: Seq<char>, marker: Seq<char>, i: int)
    requires
        0 <= i,
    ensures
        line_with(lines_of(raw), all_small(lines_of(raw)), marker, i) matches Some(line)
            ==> single_line(line),
    decreases lines_of(raw).len() - i,
{
    let rows = lines_of(raw);
    if i < rows.len() {
        if has(in_small(rows[i]), marker) {
            assert forall|k: int| 0 <= k < rows[i].len() implies #[trigger] rows[i][k] != '\n' by {
                lemma_lines_are_single(raw, i, k);
            }
        } else {
            lemma_line_with_single(raw, marker, i + 1);
        }
    }
}

proof fn lemma_line_of_text_single(raw: Seq<char>, i: int)
    requires
        0 <= i,
    ensures
        line_of_text(lines_of(raw), i) matches Some(line) ==> single_line(line),
    decreases lines_of(raw).len() - i,
{
    let rows = lines_of(raw);
    if i < rows.len() {
        if !blank(rows[i]) {
            assert forall|k: int| 0 <= k < rows[i].len() implies #[trigger] rows[i][k] != '\n' by {
                lemma_lines_are_single(raw, i, k);
            }
        } else {
            lemma_line_of_text_single(raw, i + 1);
        }
    }
}

proof fn lemma_explicit_single(raw: Seq<char>, i: int)
    requires
        0 <= i,
    ensures
        explicit_from(raw, i) matches Some(detail) ==> single_line(detail),
    decreases failure_markers().len() - i,
{
    if i < failure_markers().len() {
        if has(in_small(raw), failure_markers()[i]) {
            let marker = failure_markers()[i];
            let rows = lines_of(raw);
            lemma_line_with_single(raw, marker, 0);
            lemma_line_of_text_single(raw, 0);
            reveal_strlit("ping 命令执行失败");
            match line_with(rows, all_small(rows), marker, 0) {
                Some(line) => {
                    lemma_trimmed_single(line);
                },
                None => match line_of_text(rows, 0) {
                    Some(line) => {
                        lemma_trimmed_single(line);
                    },
                    None => {
                        lemma_trimmed_single("ping 命令执行失败"@);
                    },
                },
            }
        } else {
            lemma_explicit_single(raw, i + 1);
        }
    }
}

proof fn lemma_decimal_single(n: nat)
    ensures
        single_line(decimal(n)),
    decreases n,
{
    if n >= 10 {
        lemma_decimal_single(n / 10);
        assert forall|i: int| 0 <= i < decimal(n).len() implies #[trigger] decimal(n)[i] != '\n' by {
            if i < decimal(n / 10).len() {
                assert(decimal(n)[i] == decimal(n / 10)[i]);
            }
        }
    }
}

/// Every failure of a command is read back from the output that the run hands out.
pub proof fn lemma_failed_run_reads_back(out: CmdOut, secs: u64)
    ensures
        failure_of(out, secs) matches Some(failure) ==> failure_in(marked(out.raw@, failure)) == Some(
            failure,
        ),
{
    if let Some(failure) = failure_of(out, secs) {
        lemma_explicit_single(out.raw@, 0);
        lemma_decimal_single(secs as nat);
        reveal_strlit("ping 命令超过 ");
        reveal_strlit(" 秒未结束，已强制终止");
        reveal_strlit("无法启动 ping 子进程");
        reveal_strlit("ping 命令结束，但没有返回可识别的数据包统计");
        reveal_strlit("ping 命令异常退出，且没有返回可识别的数据包统计");
        let a = "ping 命令超过 "@;
        let b = decimal(secs as nat);
        let c = " 秒未结束，已强制终止"@;
        assert(single_line(a + b + c)) by {
            assert forall|i: int| 0 <= i < (a + b + c).len() implies #[trigger] (a + b + c)[i]
                != '\n' by {
                if i < a.len() {
                    assert((a + b + c)[i] == a[i]);
                } else if i < a.len() + b.len() {
                    assert((a + b + c)[i] == b[i - a.len()]);
                } else {
                    assert((a + b + c)[i] == c[i - a.len() - b.len()]);
                }
            }
        }
        assert(single_line(failure.detail));
        lemma_marked_failure_reads_back(out.raw@, failure);
    }
}

/// A ping that ran to its end reads as one, unless its output itself holds what older outputs or
/// marks tell failures by.
pub proof fn lemma_finished_run_reads_clean(out: CmdOut, secs: u64)
    requires
        failure_of(out, secs) is None,
        marked_among(lines_of(out.raw@), lines_of(out.raw@).len() as int) is None,
        !(has(out.raw@, "(ping 命令超时被强制结束)"@)),
        !(has(out.raw@, "启动命令失败:"@)),
    ensures
        failure_in(out.raw@) is None,
{
}

} // verus!
