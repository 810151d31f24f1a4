//! Samples of an interface's byte counters.
//!
//! Times are nanoseconds on a clock that never goes back.
use vstd::prelude::*;
use vstd::string::*;
use crate::nic::counter::NicCounterReader;
use crate::protocol::{MonitorSample, MonitorSampleView};
use crate::text::{
    cat2, cat3, cat4, cat6, cat8, contains, decimal, decimal_text, has, lines, lines_of, opt_text,
    parse_unsigned, read_unsigned, same, texts, told, trim, trimmed, words, words_of,
};

verus! {

// ---------------------------------------------------------------------------
// Reading counters
// ---------------------------------------------------------------------------

/// The bytes received so far, as a reader tells them.
pub fn read_rx_bytes<R: NicCounterReader>(reader: &R, iface: &str) -> (r: Result<u64, String>)
    ensures
        exists|answer: Result<(u64, u64), String>|
            call_ensures(R::read_counters, (reader, iface), answer) && match answer {
                Ok(counters) => r == Ok::<u64, String>(counters.0),
                Err(e) => r == Err::<u64, String>(e),
            },
{
    match reader.read_counters(iface) {
        Ok(counters) => Ok(counters.0),
        Err(e) => Err(e),
    }
}

/// Why a text is no `u64`: the message of the error with which `str::parse` refuses it.
pub uninterp spec fn number_fault(s: Seq<char>) -> Seq<char>;

/// `str::parse::<u64>`: the number that the text reads as, or the error's message. What the message
/// says is not stated.
#[verifier::external_body]
fn parse_number(s: &str) -> (r: Result<u64, String>)
    ensures
        told(r) == match read_unsigned(s@, u64::MAX as nat) {
            Some(n) => Ok::<u64, Seq<char>>(n as u64),
            None => Err::<u64, Seq<char>>(number_fault(s@)),
        },
{
    s.parse::<u64>().map_err(|e| e.to_string())
}

/// What a counter file of an interface says.
pub open spec fn counter_file_told(
    iface: Seq<char>,
    file: Seq<char>,
    content: Result<Seq<char>, Seq<char>>,
) -> Result<u64, Seq<char>> {
    match content {
        Err(e) => Err("读取 "@ + iface + " "@ + file + " 失败: "@ + e),
        Ok(text) => match read_unsigned(trimmed(text), u64::MAX as nat) {
            Some(n) => Ok(n as u64),
            None => Err("解析 "@ + iface + " "@ + file + " 失败: "@ + number_fault(trimmed(text))),
        },
    }
}

/// The number in a counter file of an interface, from what came of reading the file.
pub fn counter_in_file(iface: &str, file: &str, content: Result<String, String>) -> (r: Result<
    u64,
    String,
>)
    ensures
        told(r) == counter_file_told(
            iface@,
            file@,
            match content {
                Ok(text) => Ok(text@),
                Err(e) => Err(e@),
            },
        ),
{
    match content {
        Err(e) => {
            let head = cat4("读取 ", iface, " ", file);
            Err(cat3(head.as_str(), " 失败: ", e.as_str()))
        },
        Ok(text) => match parse_number(trim(text.as_str())) {
            Ok(n) => Ok(n),
            Err(e) => {
                let head = cat4("解析 ", iface, " ", file);
                Err(cat3(head.as_str(), " 失败: ", e.as_str()))
            },
        },
    }
}

/// Whether a line of `netstat -ibn` holds the counters of a whole interface.
pub open spec fn is_link_row(line: Seq<char>, iface: Seq<char>) -> bool {
    words_of(line).len() >= 8 && words_of(line)[0] == iface && has(line, "<Link#"@)
}

/// The counters in such a line. They are counted from its end, since the address may be missing.
pub open spec fn link_row_told(line: Seq<char>) -> Result<(u64, u64), Seq<char>> {
    let cols = words_of(line);
    match (
        read_unsigned(cols[cols.len() - 5], u64::MAX as nat),
        read_unsigned(cols[cols.len() - 2], u64::MAX as nat),
    ) {
        (None, _) => Err("解析 Ibytes 失败: "@ + line),
        (_, None) => Err("解析 Obytes 失败: "@ + line),
        (Some(rx), Some(tx)) => Ok((rx as u64, tx as u64)),
    }
}

/// The counters of an interface in the lines of `netstat -ibn`, from line `i` on.
pub open spec fn netstat_told(rows: Seq<Seq<char>>, iface: Seq<char>, i: int) -> Result<
    (u64, u64),
    Seq<char>,
>
    decreases rows.len() - i,
{
    if i < 0 || i >= rows.len() {
        Err("netstat 输出中找不到接口 "@ + iface)
    } else if is_link_row(rows[i], iface) {
        link_row_told(rows[i])
    } else {
        netstat_told(rows, iface, i + 1)
    }
}

/// The bytes that an interface received and sent, in the output of `netstat -ibn`.
pub fn parse_netstat_counters(text: &str, iface: &str) -> (r: Result<(u64, u64), String>)
    ensures
        told(r) == netstat_told(lines_of(text@), iface@, 0),
{
    let rows = lines(text);
    let ghost all = lines_of(text@);
    assert(all.len() == rows@.len());
    let mut i: usize = 0;
    while i < rows.len()
        invariant
            i <= rows@.len(),
            all == texts(rows@),
            all == lines_of(text@),
            all.len() == rows@.len(),
            netstat_told(all, iface@, 0) == netstat_told(all, iface@, i as int),
        decreases rows@.len() - i,
    {
        assert(all[i as int] == rows@[i as int]@);
        let line = rows[i].as_str();
        let cols = words(line);
        let n: usize = cols.len();
        let ghost shown = words_of(line@);
        assert(shown.len() == n);
        if n >= 8 {
            assert(shown[0] == cols@[0]@);
            if same(cols[0].as_str(), iface) && contains(line, "<Link#") {
                assert(shown[n - 5] == cols@[n - 5]@);
                assert(shown[n - 2] == cols@[n - 2]@);
                let rx = parse_unsigned(cols[n - 5].as_str(), u64::MAX);
                let tx = parse_unsigned(cols[n - 2].as_str(), u64::MAX);
                return match (rx, tx) {
                    (None, _) => Err(cat2("解析 Ibytes 失败: ", line)),
                    (_, None) => Err(cat2("解析 Obytes 失败: ", line)),
                    (Some(rx), Some(tx)) => Ok((rx, tx)),
                };
            }
        }
        i += 1;
    }
    Err(cat2("netstat 输出中找不到接口 ", iface))
}

/// The bytes that an interface received, in the output of `netstat -ibn`.
pub fn parse_netstat_ib(text: &str, iface: &str) -> (r: Result<u64, String>)
    ensures
        told(r) == match netstat_told(lines_of(text@), iface@, 0) {
            Ok(counters) => Ok::<u64, Seq<char>>(counters.0),
            Err(e) => Err::<u64, Seq<char>>(e),
        },
{
    match parse_netstat_counters(text, iface) {
        Ok(counters) => Ok(counters.0),
        Err(e) => Err(e),
    }
}

// ---------------------------------------------------------------------------
// Stopping
// ---------------------------------------------------------------------------

/// Whether and when a monitor was asked to stop.
#[derive(Clone, Copy, Debug, Default, PartialEq, Eq, Structural)]
pub struct StopSignal {
    pub requested_at: Option<u64>,
}

impl StopSignal {
    /// A signal that nobody has given yet.
    pub fn new() -> (r: StopSignal)
        ensures
            r.requested_at is None,
    {
        StopSignal { requested_at: None }
    }

    /// The signal after a request at `now`: the first request counts.
    pub open spec fn requested(self, now: u64) -> StopSignal {
        match self.requested_at {
            Some(_) => self,
            None => StopSignal { requested_at: Some(now) },
        }
    }

    /// Asks to stop, and says since when that is asked.
    pub fn request_stop(&mut self, now: u64) -> (r: u64)
        ensures
            *final(self) == old(self).requested(now),
            final(self).requested_at == Some(r),
    {
        match self.requested_at {
            Some(at) => at,
            None => {
                self.requested_at = Some(now);
                now
            },
        }
    }
}

// ---------------------------------------------------------------------------
// Samples
// ---------------------------------------------------------------------------

/// What the next reading is held against.
#[derive(Clone, Copy, Debug, PartialEq, Eq, Structural)]
pub struct CounterState {
    pub rx: u64,
    pub tx: u64,
    /// When the counters were last read.
    pub baseline_at: u64,
    /// When they were last asked for.
    pub attempted_at: u64,
}

/// The time from `then` to `now`; none where that lies ahead.
pub open spec fn since(now: u64, then: u64) -> u64 {
    if now >= then {
        (now - then) as u64
    } else {
        0
    }
}

/// The time from `then` to `now`.
pub fn time_since(now: u64, then: u64) -> (r: u64)
    ensures
        r == since(now, then),
{
    if now >= then {
        now - then
    } else {
        0
    }
}

/// Whole milliseconds in a number of nanoseconds.
pub fn millis_u64(nanos: u64) -> (r: u64)
    ensures
        r == nanos / 1_000_000,
{
    nanos / 1_000_000
}

/// A number, but at least `floor`.
pub open spec fn at_least(n: u64, floor: u64) -> u64 {
    if n < floor {
        floor
    } else {
        n
    }
}

/// A number, but at least `floor`.
pub fn no_less(n: u64, floor: u64) -> (r: u64)
    ensures
        r == at_least(n, floor),
{
    if n < floor {
        floor
    } else {
        n
    }
}

/// Whether a counter is lower than when it was last read.
pub open spec fn went_back(state: CounterState, rx: u64, tx: u64) -> bool {
    rx < state.rx || tx < state.tx
}

/// What is said of counters that went back.
pub open spec fn reset_text(state: CounterState, rx: u64, tx: u64) -> Seq<char> {
    "接口计数器回退/reset: RX "@ + decimal(state.rx as nat) + "->"@ + decimal(rx as nat) + ", TX "@
        + decimal(state.tx as nat) + "->"@ + decimal(tx as nat)
}

/// What the next reading is held against, after one: a failed one only counts as an attempt.
pub open spec fn state_after(
    state: CounterState,
    result: Result<(u64, u64), Seq<char>>,
    now: u64,
) -> CounterState {
    match result {
        Ok(counters) => CounterState {
            rx: counters.0,
            tx: counters.1,
            baseline_at: now,
            attempted_at: now,
        },
        Err(_) => CounterState { attempted_at: now, ..state },
    }
}

/// The sample that a reading makes.
pub open spec fn sample_of(
    state: CounterState,
    result: Result<(u64, u64), Seq<char>>,
    now: u64,
    t0: u64,
) -> MonitorSampleView {
    let elapsed_ms = (since(now, t0) / 1_000_000) as u64;
    match result {
        Ok(counters) => {
            let (rx, tx) = counters;
            let back = went_back(state, rx, tx);
            let measured = since(now, state.baseline_at);
            MonitorSampleView {
                elapsed_ms,
                interval_ms: at_least((measured / 1_000_000) as u64, 1),
                rx_bytes: rx,
                tx_bytes: tx,
                rx_delta_bytes: if back {
                    0
                } else {
                    (rx - state.rx) as u64
                },
                tx_delta_bytes: if back {
                    0
                } else {
                    (tx - state.tx) as u64
                },
                rate_nanos: at_least(measured, 1_000_000),
                valid: !back,
                error: if back {
                    reset_text(state, rx, tx)
                } else {
                    Seq::empty()
                },
            }
        },
        Err(error) => MonitorSampleView {
            elapsed_ms,
            interval_ms: at_least((since(now, state.attempted_at) / 1_000_000) as u64, 1),
            rx_bytes: 0,
            tx_bytes: 0,
            rx_delta_bytes: 0,
            tx_delta_bytes: 0,
            rate_nanos: 0,
            valid: false,
            error,
        },
    }
}

/// What is to be reported of a reading.
pub open spec fn reported(state: CounterState, result: Result<(u64, u64), Seq<char>>) -> Option<
    Seq<char>,
> {
    match result {
        Ok(counters) => if went_back(state, counters.0, counters.1) {
            Some(reset_text(state, counters.0, counters.1))
        } else {
            None
        },
        Err(error) => Some(error),
    }
}

/// Makes a sample of a reading. A failed reading leaves the baseline alone, so that the next good
/// one covers the whole time since the last good one; one that went back starts a new baseline.
pub fn record_counter_result(
    result: Result<(u64, u64), String>,
    now: u64,
    t0: u64,
    state: &mut CounterState,
) -> (r: (MonitorSample, Option<String>))
    ensures
        *final(state) == state_after(*old(state), told(result), now),
        r.0@ == sample_of(*old(state), told(result), now, t0),
        opt_text(r.1) == reported(*old(state), told(result)),
{
    let elapsed_ms: u64 = millis_u64(time_since(now, t0));
    match result {
        Ok(counters) => {
            let (rx, tx) = counters;
            let measured: u64 = time_since(now, state.baseline_at);
            let back = rx < state.rx || tx < state.tx;
            let rx_delta: u64 = if back {
                0
            } else {
                rx - state.rx
            };
            let tx_delta: u64 = if back {
                0
            } else {
                tx - state.tx
            };
            let report = if back {
                let a = decimal_text(state.rx);
                let b = decimal_text(rx);
                let c = decimal_text(state.tx);
                let d = decimal_text(tx);
                Some(
                    cat8(
                        "接口计数器回退/reset: RX ",
                        a.as_str(),
                        "->",
                        b.as_str(),
                        ", TX ",
                        c.as_str(),
                        "->",
                        d.as_str(),
                    ),
                )
            } else {
                None
            };
            let error = match &report {
                Some(e) => e.clone(),
                None => String::new(),
            };
            state.rx = rx;
            state.tx = tx;
            state.baseline_at = now;
            state.attempted_at = now;
            let sample = MonitorSample {
                elapsed_ms,
                interval_ms: no_less(millis_u64(measured), 1),
                rx_bytes: rx,
                tx_bytes: tx,
                rx_delta_bytes: rx_delta,
                tx_delta_bytes: tx_delta,
                rate_nanos: no_less(measured, 1_000_000),
                valid: !back,
                error,
            };
            assert(sample.error@ =~= sample_of(*old(state), told(result), now, t0).error);
            (sample, report)
        },
        Err(error) => {
            let attempted: u64 = time_since(now, state.attempted_at);
            state.attempted_at = now;
            let sample = MonitorSample {
                elapsed_ms,
                interval_ms: no_less(millis_u64(attempted), 1),
                rx_bytes: 0,
                tx_bytes: 0,
                rx_delta_bytes: 0,
                tx_delta_bytes: 0,
                rate_nanos: 0,
                valid: false,
                error: error.clone(),
            };
            (sample, Some(error))
        },
    }
}

// ---------------------------------------------------------------------------
// Runs of readings
// ---------------------------------------------------------------------------

/// The state after a run of readings.
pub open spec fn state_after_all(
    state: CounterState,
    readings: Seq<(Result<(u64, u64), Seq<char>>, u64)>,
) -> CounterState
    decreases readings.len(),
{
    if readings.len() == 0 {
        state
    } else {
        let last = readings.last();
        state_after(state_after_all(state, readings.drop_last()), last.0, last.1)
    }
}

/// The samples of a run of readings.
pub open spec fn samples_of_all(
    state: CounterState,
    readings: Seq<(Result<(u64, u64), Seq<char>>, u64)>,
    t0: u64,
) -> Seq<MonitorSampleView>
    decreases readings.len(),
{
    if readings.len() == 0 {
        Seq::empty()
    } else {
        let last = readings.last();
        samples_of_all(state, readings.drop_last(), t0).push(
            sample_of(state_after_all(state, readings.drop_last()), last.0, last.1, t0),
        )
    }
}

/// Whether no reading of a run goes back behind the one before it.
pub open spec fn never_back(
    state: CounterState,
    readings: Seq<(Result<(u64, u64), Seq<char>>, u64)>,
) -> bool
    decreases readings.len(),
{
    readings.len() > 0 ==> {
        let before = state_after_all(state, readings.drop_last());
        &&& never_back(state, readings.drop_last())
        &&& match readings.last().0 {
            Ok(counters) => !went_back(before, counters.0, counters.1),
            Err(_) => true,
        }
    }
}

/// Whether each good reading of a run comes at least a millisecond after the good one before it.
pub open spec fn spaced(
    state: CounterState,
    readings: Seq<(Result<(u64, u64), Seq<char>>, u64)>,
) -> bool
    decreases readings.len(),
{
    readings.len() > 0 ==> {
        let before = state_after_all(state, readings.drop_last());
        &&& spaced(state, readings.drop_last())
        &&& readings.last().0 is Ok ==> readings.last().1 >= before.baseline_at + 1_000_000
    }
}

/// The bytes received in the valid ones of some samples.
pub open spec fn rx_total(samples: Seq<MonitorSampleView>) -> nat
    decreases samples.len(),
{
    if samples.len() == 0 {
        0
    } else {
        rx_total(samples.drop_last()) + if samples.last().valid {
            samples.last().rx_delta_bytes as nat
        } else {
            0
        }
    }
}

/// The bytes sent in the valid ones of some samples.
pub open spec fn tx_total(samples: Seq<MonitorSampleView>) -> nat
    decreases samples.len(),
{
    if samples.len() == 0 {
        0
    } else {
        tx_total(samples.drop_last()) + if samples.last().valid {
            samples.last().tx_delta_bytes as nat
        } else {
            0
        }
    }
}

/// The time that the valid ones of some samples cover.
pub open spec fn covered(samples: Seq<MonitorSampleView>) -> nat
    decreases samples.len(),
{
    if samples.len() == 0 {
        0
    } else {
        covered(samples.drop_last()) + if samples.last().valid {
            samples.last().rate_nanos as nat
        } else {
            0
        }
    }
}

/// However many readings fail, what the next is held against stays as it was.
pub proof fn lemma_failures_keep_the_baseline(
    state: CounterState,
    readings: Seq<(Result<(u64, u64), Seq<char>>, u64)>,
)
    requires
        forall|i: int| 0 <= i < readings.len() ==> (#[trigger] readings[i]).0 is Err,
    ensures
        state_after_all(state, readings).rx == state.rx,
        state_after_all(state, readings).tx == state.tx,
        state_after_all(state, readings).baseline_at == state.baseline_at,
    decreases readings.len(),
{
    if readings.len() > 0 {
        lemma_failures_keep_the_baseline(state, readings.drop_last());
        assert(readings[readings.len() - 1].0 is Err);
    }
}

/// The first good reading after failed ones covers the bytes and the time since the last good one.
pub proof fn lemma_recovery_covers_the_gap(
    state: CounterState,
    failed: Seq<(Result<(u64, u64), Seq<char>>, u64)>,
    rx: u64,
    tx: u64,
    now: u64,
    t0: u64,
)
    requires
        forall|i: int| 0 <= i < failed.len() ==> (#[trigger] failed[i]).0 is Err,
        rx >= state.rx,
        tx >= state.tx,
    ensures
        ({
            let sample = sample_of(
                state_after_all(state, failed),
                Ok::<(u64, u64), Seq<char>>((rx, tx)),
                now,
                t0,
            );
            &&& sample.valid
            &&& sample.rx_delta_bytes == rx - state.rx
            &&& sample.tx_delta_bytes == tx - state.tx
            &&& sample.rate_nanos == at_least(since(now, state.baseline_at), 1_000_000)
        }),
{
    lemma_failures_keep_the_baseline(state, failed);
}

/// While no counter goes back, the samples' bytes add up to what the counters rose by, whichever
/// readings failed between.
pub proof fn lemma_deltas_add_up(
    state: CounterState,
    readings: Seq<(Result<(u64, u64), Seq<char>>, u64)>,
    t0: u64,
)
    requires
        never_back(state, readings),
    ensures
        state.rx + rx_total(samples_of_all(state, readings, t0)) == state_after_all(
            state,
            readings,
        ).rx,
        state.tx + tx_total(samples_of_all(state, readings, t0)) == state_after_all(
            state,
            readings,
        ).tx,
    decreases readings.len(),
{
    if readings.len() > 0 {
        let rest = readings.drop_last();
        lemma_deltas_add_up(state, rest, t0);
        let all = samples_of_all(state, readings, t0);
        assert(all.drop_last() =~= samples_of_all(state, rest, t0));
    }
}

/// Where no counter goes back and good readings keep their distance, the time that the samples
/// cover adds up to the time between the first baseline and the last.
pub proof fn lemma_intervals_add_up(
    state: CounterState,
    readings: Seq<(Result<(u64, u64), Seq<char>>, u64)>,
    t0: u64,
)
    requires
        never_back(state, readings),
        spaced(state, readings),
    ensures
        state.baseline_at + covered(samples_of_all(state, readings, t0)) == state_after_all(
            state,
            readings,
        ).baseline_at,
    decreases readings.len(),
{
    if readings.len() > 0 {
        let rest = readings.drop_last();
        lemma_intervals_add_up(state, rest, t0);
        let all = samples_of_all(state, readings, t0);
        assert(all.drop_last() =~= samples_of_all(state, rest, t0));
    }
}

// ---------------------------------------------------------------------------
// The sampling loop
// ---------------------------------------------------------------------------

/// The time that a reading made at `observed_at` stands for: that of the request to stop, where one
/// had come by then.
pub open spec fn sample_time(stop: Option<u64>, observed_at: u64) -> u64 {
    match stop {
        Some(at) => if at <= observed_at {
            at
        } else {
            observed_at
        },
        None => observed_at,
    }
}

/// The first of two requests to stop that is there.
pub open spec fn either(a: Option<u64>, b: Option<u64>) -> Option<u64> {
    match a {
        Some(_) => a,
        None => b,
    }
}

/// What a sampling loop holds.
#[derive(Debug)]
pub struct Sampling {
    pub t0: u64,
    pub state: CounterState,
    pub samples: Vec<MonitorSample>,
    pub errors: Vec<String>,
}

/// What a [`Sampling`] holds.
pub ghost struct SamplingView {
    pub t0: u64,
    pub state: CounterState,
    pub samples: Seq<MonitorSampleView>,
    pub errors: Seq<Seq<char>>,
}

impl View for Sampling {
    type V = SamplingView;

    open spec fn view(&self) -> SamplingView {
        SamplingView {
            t0: self.t0,
            state: self.state,
            samples: crate::text::views(self.samples@),
            errors: texts(self.errors@),
        }
    }
}

impl SamplingView {
    /// The loop after a reading that stands for `at`.
    pub open spec fn read(self, result: Result<(u64, u64), Seq<char>>, at: u64) -> SamplingView {
        SamplingView {
            t0: self.t0,
            state: state_after(self.state, result, at),
            samples: self.samples.push(sample_of(self.state, result, at, self.t0)),
            errors: match reported(self.state, result) {
                Some(e) => self.errors.push(e),
                None => self.errors,
            },
        }
    }
}

impl Sampling {
    /// A loop that starts at `t0` with these counters.
    pub fn new(start_rx: u64, start_tx: u64, t0: u64) -> (r: Sampling)
        ensures
            r@ == (SamplingView {
                t0,
                state: CounterState {
                    rx: start_rx,
                    tx: start_tx,
                    baseline_at: t0,
                    attempted_at: t0,
                },
                samples: Seq::empty(),
                errors: Seq::empty(),
            }),
    {
        broadcast use crate::text::group_views;

        Sampling {
            t0,
            state: CounterState { rx: start_rx, tx: start_tx, baseline_at: t0, attempted_at: t0 },
            samples: Vec::new(),
            errors: Vec::new(),
        }
    }

    /// Takes a reading that ended at `observed_at`, and says whether it was the last.
    ///
    /// `stop_on_wake` is the request to stop that ended the wait before the reading, `stop_after` the
    /// one found right behind the reading, `stop_late` the one found when the sample was stored. A
    /// request that came before the reading ended makes it the last one, and the sample stands for
    /// the time of the request; one that came later is served by one reading more.
    pub fn observe(
        &mut self,
        result: Result<(u64, u64), String>,
        observed_at: u64,
        stop_on_wake: Option<u64>,
        stop_after: Option<u64>,
        stop_late: Option<u64>,
    ) -> (r: bool)
        ensures
            final(self)@ == old(self)@.read(
                told(result),
                sample_time(either(stop_on_wake, stop_after), observed_at),
            ),
            r == match either(either(stop_on_wake, stop_after), stop_late) {
                Some(at) => at <= observed_at,
                None => false,
            },
    {
        broadcast use crate::text::group_views;

        let stop = match stop_on_wake {
            Some(at) => Some(at),
            None => stop_after,
        };
        let at: u64 = match stop {
            Some(at) => if at <= observed_at {
                at
            } else {
                observed_at
            },
            None => observed_at,
        };
        let (sample, error) = record_counter_result(result, at, self.t0, &mut self.state);
        if let Some(e) = error {
            self.errors.push(e);
        }
        self.samples.push(sample);
        let asked = match stop {
            Some(at) => Some(at),
            None => stop_late,
        };
        match asked {
            Some(at) => at <= observed_at,
            None => false,
        }
    }
}

/// The loop after a run of readings, each with the time it stands for.
pub open spec fn read_all(
    start: SamplingView,
    readings: Seq<(Result<(u64, u64), Seq<char>>, u64)>,
) -> SamplingView
    decreases readings.len(),
{
    if readings.len() == 0 {
        start
    } else {
        read_all(start, readings.drop_last()).read(readings.last().0, readings.last().1)
    }
}

/// The samples of a loop are those of its readings, and while no counter goes back the bytes in
/// them are what the counters rose by since the start.
pub proof fn lemma_loop_accounts_for_all_bytes(
    start: SamplingView,
    readings: Seq<(Result<(u64, u64), Seq<char>>, u64)>,
)
    requires
        start.samples.len() == 0,
        never_back(start.state, readings),
    ensures
        read_all(start, readings).samples == samples_of_all(start.state, readings, start.t0),
        read_all(start, readings).state == state_after_all(start.state, readings),
        start.state.rx + rx_total(read_all(start, readings).samples) == read_all(
            start,
            readings,
        ).state.rx,
        start.state.tx + tx_total(read_all(start, readings).samples) == read_all(
            start,
            readings,
        ).state.tx,
{
    lemma_loop_samples(start, readings);
    lemma_deltas_add_up(start.state, readings, start.t0);
}

proof fn lemma_loop_samples(
    start: SamplingView,
    readings: Seq<(Result<(u64, u64), Seq<char>>, u64)>,
)
    requires
        start.samples.len() == 0,
    ensures
        read_all(start, readings).samples == samples_of_all(start.state, readings, start.t0),
        read_all(start, readings).state == state_after_all(start.state, readings),
        read_all(start, readings).t0 == start.t0,
    decreases readings.len(),
{
    if readings.len() > 0 {
        lemma_loop_samples(start, readings.drop_last());
    } else {
        assert(start.samples =~= Seq::<MonitorSampleView>::empty());
    }
}

/// After a request to stop that came before the wait ended, exactly one sample follows, and it
/// stands for the time of the request.
pub proof fn lemma_one_sample_after_stop(
    before: SamplingView,
    result: Result<(u64, u64), Seq<char>>,
    requested: u64,
    observed_at: u64,
    stop_after: Option<u64>,
)
    requires
        requested <= observed_at,
    ensures
        ({
            let after = before.read(
                result,
                sample_time(either(Some(requested), stop_after), observed_at),
            );
            &&& after.samples.len() == before.samples.len() + 1
            &&& after.samples.last().elapsed_ms == since(requested, before.t0) / 1_000_000
        }),
{
}

// ---------------------------------------------------------------------------
// Watching one interface
// ---------------------------------------------------------------------------

/// How one interface is watched from the command line.
#[derive(Debug)]
pub struct ContinuousOpts<'a> {
    pub iface: &'a str,
    pub interval_secs: u64,
    /// Zero watches until it is interrupted.
    pub duration_secs: u64,
    pub csv_path: Option<&'a str>,
}

impl<'a> ContinuousOpts<'a> {
    /// Whether to take another sample: not once it is interrupted or its time is up.
    pub fn goes_on(&self, elapsed_secs: u64, interrupted: bool) -> (r: bool)
        ensures
            r == (!interrupted && (self.duration_secs == 0 || elapsed_secs < self.duration_secs)),
    {
        !interrupted && (self.duration_secs == 0 || elapsed_secs < self.duration_secs)
    }
}

/// One line of a report on an interface.
#[derive(Clone, Debug)]
pub struct RateLine {
    pub time: String,
    /// Megabits in a second, as they are shown.
    pub speed: String,
}

/// A line of a table of rates.
pub open spec fn rate_line(line: RateLine) -> Seq<char> {
    line.time@ + ","@ + line.speed@ + "\n"@
}

/// The head of a report, and its first `n` lines.
pub open spec fn report_to(
    iface: Seq<char>,
    interval: u64,
    duration: u64,
    average: Seq<char>,
    peak: Seq<char>,
    records: Seq<RateLine>,
    n: int,
) -> Seq<char>
    decreases n,
{
    if n <= 0 {
        "\u{FEFF}# === CPE NIC Monitor Report ===\n# Interface,"@ + iface + "\n# Interval,"@
            + decimal(interval as nat) + "s\n# Duration,"@ + decimal(duration as nat)
            + "s\n# Average (Mbps),"@ + average + "\n# Peak (Mbps),"@ + peak
            + "\n# ================================\nTime,Speed(Mbps)\n"@
    } else {
        report_to(iface, interval, duration, average, peak, records, n - 1) + rate_line(
            records[n - 1],
        )
    }
}

/// The report on an interface that was watched, as a table that spreadsheets read.
pub fn csv_with_header(
    iface: &str,
    interval: u64,
    duration: u64,
    average: &str,
    peak: &str,
    records: &Vec<RateLine>,
) -> (r: String)
    ensures
        r@ == report_to(
            iface@,
            interval,
            duration,
            average@,
            peak@,
            records@,
            records@.len() as int,
        ),
{
    let every = decimal_text(interval);
    let long = decimal_text(duration);
    let head = cat6(
        "\u{FEFF}# === CPE NIC Monitor Report ===\n# Interface,",
        iface,
        "\n# Interval,",
        every.as_str(),
        "s\n# Duration,",
        long.as_str(),
    );
    let mut r = cat6(
        head.as_str(),
        "s\n# Average (Mbps),",
        average,
        "\n# Peak (Mbps),",
        peak,
        "\n# ================================\nTime,Speed(Mbps)\n",
    );
    let mut i: usize = 0;
    while i < records.len()
        invariant
            i <= records@.len(),
            r@ == report_to(iface@, interval, duration, average@, peak@, records@, i as int),
        decreases records@.len() - i,
    {
        let line = cat4(records[i].time.as_str(), ",", records[i].speed.as_str(), "\n");
        r.append(line.as_str());
        i += 1;
    }
    r
}

} // verus!
