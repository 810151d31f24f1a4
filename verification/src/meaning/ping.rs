//! What a ping asks for and what is made of its output.
use vstd::prelude::*;
use vstd::string::*;
use crate::pattern::matches_of;
use crate::ping::{
    echoes_in, echoes_to, explicit_in, failure_markers, failure_of, line_with, parsed, ping_args,
    ping_program, spelled_ms, summary_of, telling_line, times_of, CmdOut, REPLY_BSD, REPLY_TIME,
    REPLY_WINDOWS, RTT_BSD, RTT_CN, RTT_EN, SUMMARY_BSD, SUMMARY_CN, SUMMARY_EN,
};
use crate::protocol::PingReq;
use crate::text::{begins, decimal, has, in_small, lines_of, read_unsigned, trimmed, trimmed_start};

verus! {

/// What the parts of a match hold.
pub type Parts = Seq<Option<Seq<char>>>;

/// `value` stands right behind `flag`.
pub open spec fn gives(args: Seq<Seq<char>>, flag: Seq<char>, value: Seq<char>) -> bool {
    exists|i: int| 0 <= i < args.len() - 1 && #[trigger] args[i] == flag && args[i + 1] == value
}

/// The command goes from the request's source to its target, as often as asked but at least once,
/// with the payload that was asked for but no more than a packet holds.
pub proof fn lemma_command_asks_for_the_request(req: PingReq, windows: bool)
    ensures
        ({
            let args = ping_args(req, windows);
            let count = if req.count == 0 {
                1nat
            } else {
                req.count as nat
            };
            let payload = if req.payload <= 65_500 {
                req.payload as nat
            } else {
                65_500nat
            };
            &&& gives(args, "-S"@, req.src@)
            &&& windows ==> {
                &&& args.len() == 8
                &&& args[0] == req.dst@
                &&& gives(args, "-n"@, decimal(count))
                &&& gives(args, "-l"@, decimal(payload))
                &&& args.last() == if req.v6 {
                    "-6"@
                } else {
                    "-4"@
                }
                &&& ping_program(req, windows) == "ping"@
            }
            &&& !windows ==> {
                &&& args.len() == 7
                &&& args.last() == req.dst@
                &&& gives(args, "-c"@, decimal(count))
                &&& gives(args, "-s"@, decimal(payload))
                &&& ping_program(req, windows) == if req.v6 {
                    "ping6"@
                } else {
                    "ping"@
                }
            }
        }),
{
    let args = ping_args(req, windows);
    if windows {
        assert(args[1] == "-S"@ && args[2] == req.src@);
        assert(args[3] == "-n"@);
        assert(args[5] == "-l"@);
    } else {
        assert(args[0] == "-c"@);
        assert(args[2] == "-S"@ && args[3] == req.src@);
        assert(args[4] == "-s"@);
    }
}

/// The parts hold a shortest, a longest and an average time in the order in which Windows tells
/// them.
pub open spec fn tells_in_order(
    parts: Parts,
    shortest: Seq<char>,
    longest: Seq<char>,
    average: Seq<char>,
) -> bool {
    &&& parts.len() > 3
    &&& parts[1] == Some(shortest)
    &&& parts[2] == Some(longest)
    &&& parts[3] == Some(average)
}

/// A time below a millisecond counts as none; any other stands as it is.
pub proof fn lemma_times_are_spelled(s: Seq<char>)
    ensures
        trimmed(s).len() > 0 && trimmed(s)[0] == '<' ==> spelled_ms(s) == seq!['0'],
        trimmed(s).len() == 0 || trimmed(s)[0] != '<' ==> spelled_ms(s) == trimmed(s),
{
    reveal_strlit("<");
    reveal_strlit("0");
    let t = trimmed(s);
    assert("0"@ =~= seq!['0']);
    if t.len() > 0 {
        assert(t.subrange(0, 1)[0] == t[0]);
        if t[0] == '<' {
            assert(t.subrange(0, 1) =~= "<"@);
        } else {
            assert("<"@[0] == '<');
        }
    }
}

/// Windows tells the shortest, the longest and the average time, in that order, in either language:
/// a ping that was answered has the first as its shortest time, the second as its longest and the
/// third as its average.
pub proof fn lemma_windows_times_keep_their_names(
    text: Seq<char>,
    count: u32,
    shortest: Seq<char>,
    longest: Seq<char>,
    average: Seq<char>,
)
    requires
        parsed(text, count).ok,
        (matches_of(RTT_CN@, text).len() > 0 && tells_in_order(
            matches_of(RTT_CN@, text)[0],
            shortest,
            longest,
            average,
        )) || (matches_of(RTT_CN@, text).len() == 0 && matches_of(RTT_EN@, text).len() > 0
            && tells_in_order(matches_of(RTT_EN@, text)[0], shortest, longest, average)),
    ensures
        parsed(text, count).rtt_min == Some(spelled_ms(shortest)),
        parsed(text, count).rtt_max == Some(spelled_ms(longest)),
        parsed(text, count).rtt_avg == Some(spelled_ms(average)),
{
}

/// Elsewhere the average stands between the shortest time and the longest.
pub proof fn lemma_other_times_keep_their_names(
    text: Seq<char>,
    count: u32,
    shortest: Seq<char>,
    average: Seq<char>,
    longest: Seq<char>,
)
    requires
        parsed(text, count).ok,
        matches_of(RTT_CN@, text).len() == 0,
        matches_of(RTT_EN@, text).len() == 0,
        matches_of(RTT_BSD@, text).len() > 0,
        matches_of(RTT_BSD@, text)[0].len() > 3,
        matches_of(RTT_BSD@, text)[0][1] == Some(shortest),
        matches_of(RTT_BSD@, text)[0][2] == Some(average),
        matches_of(RTT_BSD@, text)[0][3] == Some(longest),
    ensures
        parsed(text, count).rtt_min == Some(shortest),
        parsed(text, count).rtt_avg == Some(average),
        parsed(text, count).rtt_max == Some(longest),
{
}

/// The three readings of the times agree: the Chinese form gives the same times as the English one
/// with the same parts, and the other form with the last two parts exchanged, where no part needs
/// respelling.
pub proof fn lemma_forms_agree(parts: Parts, other: Parts)
    requires
        parts.len() > 3 && other.len() > 3,
        parts[1] == other[1],
        parts[2] == other[3],
        parts[3] == other[2],
        forall|i: int|
            1 <= i <= 3 ==> (#[trigger] parts[i]) is Some && spelled_ms(parts[i]->0) == parts[i]->0,
    ensures
        times_of(seq![parts], seq![], seq![]) == times_of(seq![], seq![parts], seq![]),
        times_of(seq![], seq![parts], seq![]) == times_of(seq![], seq![], seq![other]),
{
    assert(spelled_ms(parts[1]->0) == parts[1]->0);
    assert(spelled_ms(parts[2]->0) == parts[2]->0);
    assert(spelled_ms(parts[3]->0) == parts[3]->0);
}

/// Where no form of the times is found, or nothing was answered, no time is known.
pub proof fn lemma_no_times_without_an_answer(text: Seq<char>, count: u32)
    ensures
        !parsed(text, count).ok || (matches_of(RTT_CN@, text).len() == 0 && matches_of(
            RTT_EN@,
            text,
        ).len() == 0 && matches_of(RTT_BSD@, text).len() == 0) ==> parsed(text, count).rtt_min
            is None && parsed(text, count).rtt_avg is None && parsed(text, count).rtt_max is None,
{
}

/// The parts count what was sent and what came back.
pub open spec fn counts_packets(parts: Parts, sent: u32, received: u32) -> bool {
    &&& parts.len() > 2
    &&& parts[1] matches Some(a) && read_unsigned(a, u32::MAX as nat) == Some(sent as nat)
    &&& parts[2] matches Some(b) && read_unsigned(b, u32::MAX as nat) == Some(received as nat)
}

/// The first summary of an output, the forms taken in their order.
pub open spec fn first_summary(text: Seq<char>, parts: Parts) -> bool {
    let (cn, en, bsd) = (
        matches_of(SUMMARY_CN@, text),
        matches_of(SUMMARY_EN@, text),
        matches_of(SUMMARY_BSD@, text),
    );
    ||| cn.len() > 0 && parts == cn[0]
    ||| cn.len() == 0 && en.len() > 0 && parts == en[0]
    ||| cn.len() == 0 && en.len() == 0 && bsd.len() > 0 && parts == bsd[0]
}

/// What the summary says was sent was sent; as received count the answers that carry a time, but no
/// more than the summary says came back or was sent. The rest is lost.
pub proof fn lemma_summary_bounds_the_answers(
    text: Seq<char>,
    count: u32,
    parts: Parts,
    sent: u32,
    received: u32,
)
    requires
        first_summary(text, parts),
        counts_packets(parts, sent, received),
    ensures
        ({
            let r = parsed(text, count);
            let answers = echoes_in(text);
            &&& r.sent == sent
            &&& r.received <= answers && r.received <= received && r.received <= sent
            &&& r.received == answers || r.received == received || r.received == sent
            &&& r.lost == sent - r.received
            &&& r.ok <==> answers > 0 && received > 0 && sent > 0
        }),
{
}

/// Without a summary the packets are those that were asked for, and the answers those that carry a
/// time, as far as they were asked for.
pub proof fn lemma_answers_count_without_a_summary(text: Seq<char>, count: u32)
    requires
        matches_of(SUMMARY_CN@, text).len() == 0,
        matches_of(SUMMARY_EN@, text).len() == 0,
        matches_of(SUMMARY_BSD@, text).len() == 0,
    ensures
        parsed(text, count).sent == count,
        echoes_in(text) <= count ==> parsed(text, count).received == echoes_in(text),
        echoes_in(text) > count ==> parsed(text, count).received == count,
        parsed(text, count).lost == count - parsed(text, count).received,
{
}

/// A number of packets that cannot be read counts as what was asked for, or as none that came back.
pub proof fn lemma_unread_counts_fall_back(parts: Parts, fallback: u32)
    requires
        parts.len() > 2,
        parts[1] matches Some(a) && read_unsigned(a, u32::MAX as nat) is None,
        parts[2] matches Some(b) && read_unsigned(b, u32::MAX as nat) is None,
    ensures
        summary_of(seq![parts], seq![], seq![], fallback) == Some((fallback, 0u32)),
        summary_of(seq![], seq![parts], seq![], fallback) == Some((fallback, 0u32)),
        summary_of(seq![], seq![], seq![parts], fallback) == Some((fallback, 0u32)),
{
}

/// A line is an answer if it says where it came from and how long it took.
pub open spec fn answers(line: Seq<char>) -> bool {
    &&& matches_of(REPLY_TIME@, line).len() > 0
    &&& matches_of(REPLY_WINDOWS@, line).len() > 0 || matches_of(REPLY_BSD@, line).len() > 0
}

/// One more line is one more answer exactly where it is one.
pub proof fn lemma_each_answer_counts_once(rows: Seq<Seq<char>>, line: Seq<char>)
    ensures
        echoes_to(rows.push(line), rows.len() as int + 1) == echoes_to(rows, rows.len() as int)
            + if answers(line) {
            1nat
        } else {
            0nat
        },
        echoes_to(rows, 0) == 0,
        echoes_to(rows, rows.len() as int) <= rows.len(),
{
    lemma_count_prefix(rows, line, rows.len() as int);
    lemma_count_bounded(rows, rows.len() as int);
}

proof fn lemma_count_prefix(rows: Seq<Seq<char>>, line: Seq<char>, n: int)
    requires
        n <= rows.len(),
    ensures
        echoes_to(rows.push(line), n) == echoes_to(rows, n),
    decreases n,
{
    if n > 0 {
        lemma_count_prefix(rows, line, n - 1);
        assert(rows.push(line)[n - 1] == rows[n - 1]);
    }
}

proof fn lemma_count_bounded(rows: Seq<Seq<char>>, n: int)
    requires
        0 <= n,
    ensures
        echoes_to(rows, n) <= n,
    decreases n,
{
    if n > 0 {
        lemma_count_bounded(rows, n - 1);
    }
}

/// A command that ran out of time timed out, whatever it said; one that never started did not
/// start; only then is its output looked at.
pub proof fn lemma_kind_of_a_failed_command(out: CmdOut, secs: u64)
    ensures
        out.timed_out ==> (failure_of(out, secs) matches Some(f) && f.kind is Timeout),
        !out.timed_out && begins(trimmed_start(out.stderr@), "启动命令失败:"@) ==> (failure_of(
            out,
            secs,
        ) matches Some(f) && f.kind is Spawn),
        !out.timed_out && !begins(trimmed_start(out.stderr@), "启动命令失败:"@) ==> {
            &&& failure_of(out, secs) matches Some(f) ==> f.kind is Execution
            &&& failure_of(out, secs) is None <==> (forall|i: int|
                0 <= i < failure_markers().len() ==> !(has(
                    in_small(out.raw@),
                    #[trigger] failure_markers()[i],
                ))) && (matches_of(SUMMARY_CN@, out.raw@).len() > 0 || matches_of(
                SUMMARY_EN@,
                out.raw@,
            ).len() > 0 || matches_of(SUMMARY_BSD@, out.raw@).len() > 0)
        },
{
    lemma_marker_is_found(
        lines_of(out.raw@),
        crate::ping::all_small(lines_of(out.raw@)),
        in_small(out.raw@),
        0,
    );
}

proof fn lemma_marker_is_found(rows: Seq<Seq<char>>, lows: Seq<Seq<char>>, low: Seq<char>, i: int)
    requires
        0 <= i <= failure_markers().len(),
    ensures
        explicit_in(rows, lows, low, i) is None <==> (forall|j: int|
            i <= j < failure_markers().len() ==> !(has(low, #[trigger] failure_markers()[j]))),
    decreases failure_markers().len() - i,
{
    if i < failure_markers().len() && !(has(low, failure_markers()[i])) {
        lemma_marker_is_found(rows, lows, low, i + 1);
    }
}

/// The words that tell of a command that could not run: a send or a source address that failed, a
/// route or a permission that is missing, a packet that is too long.
pub open spec fn tells_of_failure(low: Seq<char>) -> bool {
    ||| has(low, "ping: transmit failed"@)
    ||| has(low, "ping: 传输失败"@)
    ||| has(low, "ping：传输失败"@)
    ||| has(low, "general failure"@)
    ||| has(low, "常规故障"@)
    ||| has(low, "一般故障"@)
    ||| has(low, "can't assign requested address"@)
    ||| has(low, "cannot assign requested address"@)
    ||| has(low, "can't bind"@)
    ||| has(low, "cannot bind"@)
    ||| has(low, "invalid source address"@)
    ||| has(low, "bad value for option -s"@)
    ||| has(low, "operation not permitted"@)
    ||| has(low, "permission denied"@)
    ||| has(low, "network is unreachable"@)
    ||| has(low, "no route to host"@)
    ||| has(low, "sendto: message too long"@)
    ||| has(low, "message too long"@)
    ||| has(low, "消息太长"@)
}

/// An output that holds any of these words tells of a failure in so many words, and no other does.
pub proof fn lemma_words_tell_of_a_failure(
    rows: Seq<Seq<char>>,
    lows: Seq<Seq<char>>,
    low: Seq<char>,
)
    ensures
        explicit_in(rows, lows, low, 0) is Some <==> tells_of_failure(low),
{
    lemma_marker_is_found(rows, lows, low, 0);
    assert(failure_markers().len() == 19);
    assert(failure_markers()[0] == "ping: transmit failed"@);
    assert(failure_markers()[1] == "ping: 传输失败"@);
    assert(failure_markers()[2] == "ping：传输失败"@);
    assert(failure_markers()[3] == "general failure"@);
    assert(failure_markers()[4] == "常规故障"@);
    assert(failure_markers()[5] == "一般故障"@);
    assert(failure_markers()[6] == "can't assign requested address"@);
    assert(failure_markers()[7] == "cannot assign requested address"@);
    assert(failure_markers()[8] == "can't bind"@);
    assert(failure_markers()[9] == "cannot bind"@);
    assert(failure_markers()[10] == "invalid source address"@);
    assert(failure_markers()[11] == "bad value for option -s"@);
    assert(failure_markers()[12] == "operation not permitted"@);
    assert(failure_markers()[13] == "permission denied"@);
    assert(failure_markers()[14] == "network is unreachable"@);
    assert(failure_markers()[15] == "no route to host"@);
    assert(failure_markers()[16] == "sendto: message too long"@);
    assert(failure_markers()[17] == "message too long"@);
    assert(failure_markers()[18] == "消息太长"@);
}

/// The detail of a failure is the first line that holds the telling words.
pub proof fn lemma_telling_line_tells(
    rows: Seq<Seq<char>>,
    lows: Seq<Seq<char>>,
    marker: Seq<char>,
    at: int,
)
    requires
        rows.len() == lows.len(),
        0 <= at < rows.len(),
        has(lows[at], marker),
        forall|i: int| 0 <= i < at ==> !(has(#[trigger] lows[i], marker)),
    ensures
        telling_line(rows, lows, marker) == trimmed(rows[at]),
{
    lemma_line_found(rows, lows, marker, 0, at);
}

proof fn lemma_line_found(
    rows: Seq<Seq<char>>,
    lows: Seq<Seq<char>>,
    marker: Seq<char>,
    i: int,
    at: int,
)
    requires
        rows.len() == lows.len(),
        0 <= i <= at < rows.len(),
        has(lows[at], marker),
        forall|j: int| i <= j < at ==> !(has(#[trigger] lows[j], marker)),
    ensures
        line_with(rows, lows, marker, i) == Some(rows[at]),
    decreases at - i,
{
    if i < at {
        lemma_line_found(rows, lows, marker, i + 1, at);
    }
}

} // verus!
