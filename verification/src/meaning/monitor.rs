//! What a sample of the counters says, and what a monitor reports at its end.
use vstd::prelude::*;
use vstd::string::*;
use crate::nic::monitor::{
    counter_file_told, either, netstat_told, number_fault, report_to, reported, rx_total, sample_of,
    sample_time, state_after, tx_total, CounterState, RateLine, SamplingView, StopSignal,
};
use crate::nic::registry::{expired_names, owned_names, started, MonEntryView};
use crate::protocol::MonitorSampleView;
use crate::text::{decimal, has, read_unsigned, trimmed, words_of};

verus! {

// ---------------------------------------------------------------------------
// Counters
// ---------------------------------------------------------------------------

/// A file's counter is the number it holds; what it cannot be read for is told.
pub proof fn lemma_counter_is_the_number_in_its_file(
    iface: Seq<char>,
    file: Seq<char>,
    text: Seq<char>,
    error: Seq<char>,
    n: u64,
)
    ensures
        read_unsigned(trimmed(text), u64::MAX as nat) == Some(n as nat) ==> counter_file_told(
            iface,
            file,
            Ok::<Seq<char>, Seq<char>>(text),
        ) == Ok::<u64, Seq<char>>(n),
        read_unsigned(trimmed(text), u64::MAX as nat) is None ==> counter_file_told(
            iface,
            file,
            Ok::<Seq<char>, Seq<char>>(text),
        ) == Err::<u64, Seq<char>>(
            "解析 "@ + iface + " "@ + file + " 失败: "@ + number_fault(trimmed(text)),
        ),
        counter_file_told(iface, file, Err::<Seq<char>, Seq<char>>(error)) == Err::<u64, Seq<char>>(
            "读取 "@ + iface + " "@ + file + " 失败: "@ + error,
        ),
{
}

/// A line of `netstat` is about the link of an interface.
pub open spec fn is_about_link(line: Seq<char>, iface: Seq<char>) -> bool {
    words_of(line).len() >= 8 && words_of(line)[0] == iface && has(line, "<Link#"@)
}

/// The counters of an interface stand in the first line about its link: the received bytes in the
/// fifth column from the end, the sent bytes in the second.
pub proof fn lemma_counters_stand_in_their_columns(
    rows: Seq<Seq<char>>,
    iface: Seq<char>,
    i: int,
    at: int,
    rx: u64,
    tx: u64,
)
    requires
        0 <= i <= at < rows.len(),
        is_about_link(rows[at], iface),
        forall|j: int| i <= j < at ==> !is_about_link(#[trigger] rows[j], iface),
        read_unsigned(words_of(rows[at])[words_of(rows[at]).len() - 5], u64::MAX as nat) == Some(
            rx as nat,
        ),
        read_unsigned(words_of(rows[at])[words_of(rows[at]).len() - 2], u64::MAX as nat) == Some(
            tx as nat,
        ),
    ensures
        netstat_told(rows, iface, i) == Ok::<(u64, u64), Seq<char>>((rx, tx)),
    decreases at - i,
{
    if i < at {
        lemma_counters_stand_in_their_columns(rows, iface, i + 1, at, rx, tx);
    }
}

/// Without a line about its link, an interface has no counters.
pub proof fn lemma_no_counters_without_a_link(rows: Seq<Seq<char>>, iface: Seq<char>, i: int)
    requires
        0 <= i <= rows.len(),
        forall|j: int| i <= j < rows.len() ==> !is_about_link(#[trigger] rows[j], iface),
    ensures
        netstat_told(rows, iface, i) == Err::<(u64, u64), Seq<char>>(
            "netstat 输出中找不到接口 "@ + iface,
        ),
    decreases rows.len() - i,
{
    if i < rows.len() {
        lemma_no_counters_without_a_link(rows, iface, i + 1);
    }
}

// ---------------------------------------------------------------------------
// Samples
// ---------------------------------------------------------------------------

/// A good reading that does not go back is a valid sample: of the bytes since the last good reading,
/// over the time since then, a millisecond at least.
pub proof fn lemma_sample_counts_from_the_last_reading(
    state: CounterState,
    rx: u64,
    tx: u64,
    now: u64,
    t0: u64,
)
    requires
        rx >= state.rx,
        tx >= state.tx,
        now >= state.baseline_at,
        now >= t0,
    ensures
        ({
            let result = Ok::<(u64, u64), Seq<char>>((rx, tx));
            let s = sample_of(state, result, now, t0);
            let spent = now - state.baseline_at;
            &&& s.valid
            &&& s.error.len() == 0
            &&& s.rx_bytes == rx
            &&& s.tx_bytes == tx
            &&& s.rx_delta_bytes == rx - state.rx
            &&& s.tx_delta_bytes == tx - state.tx
            &&& s.elapsed_ms * 1_000_000 <= now - t0 < (s.elapsed_ms + 1) * 1_000_000
            &&& spent >= 1_000_000 ==> s.rate_nanos == spent && s.interval_ms * 1_000_000 <= spent
                < (s.interval_ms + 1) * 1_000_000
            &&& spent < 1_000_000 ==> s.rate_nanos == 1_000_000 && s.interval_ms == 1
            &&& reported(state, result) is None
        }),
{
}

/// A reading that goes back in either counter is told and counts no bytes; the next one counts from
/// it.
pub proof fn lemma_going_back_starts_over(
    state: CounterState,
    rx: u64,
    tx: u64,
    now: u64,
    t0: u64,
)
    requires
        rx < state.rx || tx < state.tx,
    ensures
        ({
            let result = Ok::<(u64, u64), Seq<char>>((rx, tx));
            let s = sample_of(state, result, now, t0);
            let text = "接口计数器回退/reset: RX "@ + decimal(state.rx as nat) + "->"@ + decimal(
                rx as nat,
            ) + ", TX "@ + decimal(state.tx as nat) + "->"@ + decimal(tx as nat);
            &&& !s.valid
            &&& s.rx_delta_bytes == 0
            &&& s.tx_delta_bytes == 0
            &&& s.rx_bytes == rx
            &&& s.tx_bytes == tx
            &&& s.error == text
            &&& reported(state, result) == Some(text)
            &&& state_after(state, result, now).rx == rx
            &&& state_after(state, result, now).tx == tx
        }),
{
}

/// A failed reading is a sample without bytes that tells the error; its time counts from the last
/// attempt.
pub proof fn lemma_failed_reading_is_told(
    state: CounterState,
    error: Seq<char>,
    now: u64,
    t0: u64,
)
    ensures
        ({
            let result = Err::<(u64, u64), Seq<char>>(error);
            let s = sample_of(state, result, now, t0);
            &&& !s.valid
            &&& s.error == error
            &&& s.rx_bytes == 0 && s.tx_bytes == 0
            &&& s.rx_delta_bytes == 0 && s.tx_delta_bytes == 0
            &&& s.rate_nanos == 0
            &&& s.interval_ms >= 1
            &&& now >= state.attempted_at + 1_000_000 ==> s.interval_ms * 1_000_000 <= now
                - state.attempted_at < (s.interval_ms + 1) * 1_000_000
            &&& reported(state, result) == Some(error)
            &&& state_after(state, result, now).attempted_at == now
        }),
{
}

/// After a reading, good or not, the next attempt counts from it; after a good one, so do the bytes.
pub proof fn lemma_reading_moves_the_clock(
    state: CounterState,
    rx: u64,
    tx: u64,
    now: u64,
)
    ensures
        ({
            let after = state_after(state, Ok::<(u64, u64), Seq<char>>((rx, tx)), now);
            after.rx == rx && after.tx == tx && after.baseline_at == now && after.attempted_at
                == now
        }),
{
}

/// A reading adds its sample behind the others and, where there is something to tell, its error.
pub proof fn lemma_readings_are_kept(
    before: SamplingView,
    result: Result<(u64, u64), Seq<char>>,
    at: u64,
)
    ensures
        ({
            let after = before.read(result, at);
            &&& after.t0 == before.t0
            &&& after.samples.len() == before.samples.len() + 1
            &&& after.samples.drop_last() == before.samples
            &&& after.samples.last().valid ==> result is Ok
            &&& result is Err ==> after.errors == before.errors.push(result->Err_0)
            &&& after.errors.len() == before.errors.len() + if after.samples.last().valid {
                0int
            } else {
                1
            }
            &&& !after.samples.last().valid ==> after.errors.last() == after.samples.last().error
        }),
{
    let after = before.read(result, at);
    assert(after.samples.drop_last() =~= before.samples);
}

/// A sample that was taken after a stop was asked for is dated at the request, if that lies before.
pub proof fn lemma_stop_dates_the_last_sample(stop: u64, observed_at: u64)
    ensures
        stop <= observed_at ==> sample_time(Some(stop), observed_at) == stop,
        stop > observed_at ==> sample_time(Some(stop), observed_at) == observed_at,
        sample_time(None, observed_at) == observed_at,
{
}

/// The first request for a stop counts.
pub proof fn lemma_first_stop_counts(signal: StopSignal, a: u64, b: u64)
    ensures
        signal.requested_at is None ==> signal.requested(a).requested_at == Some(a),
        signal.requested_at is Some ==> signal.requested(a) == signal,
        signal.requested(a).requested(b) == signal.requested(a),
        either(Some(a), Some(b)) == Some(a),
        either(None, Some(b)) == Some(b),
        either(Some(a), None) == Some(a),
{
}

// ---------------------------------------------------------------------------
// Monitors
// ---------------------------------------------------------------------------

/// A monitor starts from the counters that were read, with nothing sampled yet, at an interval held
/// between a fifth of a second and five seconds.
pub proof fn lemma_monitor_starts_from_the_counters(
    iface: Seq<char>,
    interval_ms: u64,
    owner_id: Seq<char>,
    lease_secs: u64,
    rx: u64,
    tx: u64,
    t0: u64,
)
    ensures
        ({
            let entry = started(iface, interval_ms, owner_id, lease_secs, (rx, tx), t0);
            &&& entry.iface == iface
            &&& entry.owner_id == owner_id
            &&& entry.lease_secs == lease_secs
            &&& entry.start_rx == rx && entry.start_tx == tx
            &&& entry.sampling.state.rx == rx && entry.sampling.state.tx == tx
            &&& entry.sampling.state.baseline_at == t0 && entry.sampling.state.attempted_at == t0
            &&& entry.sampling.t0 == t0
            &&& entry.sampling.samples.len() == 0 && entry.sampling.errors.len() == 0
            &&& entry.stop.requested_at is None && !entry.panicked
            &&& 200 <= interval_ms <= 5_000 ==> entry.interval_ms == interval_ms
            &&& interval_ms < 200 ==> entry.interval_ms == 200
            &&& interval_ms > 5_000 ==> entry.interval_ms == 5_000
        }),
{
}

/// A monitor reports what its valid samples received and sent, over the time up to the request for
/// its stop, a millisecond at least.
pub proof fn lemma_monitor_reports_its_samples(entry: MonEntryView, now: u64)
    requires
        entry.sampling.samples.len() > 0,
        entry.totals_fit(),
        entry.stop.requested_at is None,
        now >= entry.sampling.t0 + 1_000_000,
    ensures
        ({
            let out = entry.settled(now, None);
            &&& out.bytes == rx_total(entry.sampling.samples)
            &&& out.tx_bytes == tx_total(entry.sampling.samples)
            &&& out.nanos == now - entry.sampling.t0
            &&& out.samples == entry.sampling.samples
            &&& !entry.panicked ==> out.errors == entry.sampling.errors
            &&& entry.panicked ==> out.errors == entry.sampling.errors.push(
                entry.iface + " 采样线程异常退出"@,
            )
        }),
{
}

/// The time of a report ends where the stop was asked for, not where it was carried out.
pub proof fn lemma_report_ends_at_the_request(
    entry: MonEntryView,
    at: u64,
    now: u64,
    last_read: Option<Result<(u64, u64), Seq<char>>>,
)
    requires
        entry.stop.requested_at == Some(at),
    ensures
        at >= entry.sampling.t0 + 1_000_000 ==> entry.settled(now, last_read).nanos == at
            - entry.sampling.t0,
        at < entry.sampling.t0 + 1_000_000 ==> entry.settled(now, last_read).nanos == 1_000_000,
{
}

/// Where nothing was sampled the counters are read once more: their rise since the start is reported,
/// none where they went back, and an error where they cannot be read.
pub proof fn lemma_unsampled_monitor_reads_once_more(
    entry: MonEntryView,
    now: u64,
    rx: u64,
    tx: u64,
    error: Seq<char>,
)
    requires
        !entry.panicked,
    ensures
        ({
            let out = entry.settled(now, Some(Ok::<(u64, u64), Seq<char>>((rx, tx))));
            &&& rx >= entry.start_rx ==> out.bytes == rx - entry.start_rx
            &&& rx < entry.start_rx ==> out.bytes == 0
            &&& tx >= entry.start_tx ==> out.tx_bytes == tx - entry.start_tx
            &&& tx < entry.start_tx ==> out.tx_bytes == 0
            &&& out.errors == entry.sampling.errors
        }),
        ({
            let out = entry.settled(now, Some(Err::<(u64, u64), Seq<char>>(error)));
            &&& out.bytes == 0
            &&& out.tx_bytes == 0
            &&& out.errors == entry.sampling.errors.push(
                entry.iface + " 停止时无法读取计数器: "@ + error,
            )
        }),
{
}

/// A total counts every valid sample once and no other.
pub proof fn lemma_totals_count_valid_samples(
    samples: Seq<MonitorSampleView>,
    sample: MonitorSampleView,
)
    ensures
        rx_total(samples.push(sample)) == rx_total(samples) + if sample.valid {
            sample.rx_delta_bytes as nat
        } else {
            0nat
        },
        tx_total(samples.push(sample)) == tx_total(samples) + if sample.valid {
            sample.tx_delta_bytes as nat
        } else {
            0nat
        },
        rx_total(Seq::empty()) == 0,
        tx_total(Seq::empty()) == 0,
{
    assert(samples.push(sample).drop_last() =~= samples);
}

/// A monitor lives as long as its lease or, without one, as the sweep allows.
pub proof fn lemma_monitors_live_as_long_as_leased(
    all: Map<Seq<char>, MonEntryView>,
    id: Seq<char>,
    now: u64,
    legacy_max_age: u64,
)
    requires
        all.contains_key(id),
        now >= all[id].sampling.t0,
    ensures
        ({
            let age = now - all[id].sampling.t0;
            let lease = all[id].lease_secs;
            &&& lease > 0 ==> (expired_names(all, now, legacy_max_age).contains(id) <==> age
                >= lease * 1_000_000_000)
            &&& lease == 0 ==> (expired_names(all, now, legacy_max_age).contains(id) <==> age
                >= legacy_max_age)
        }),
        owned_names(all, all[id].owner_id).contains(id),
{
}

/// Monitors of another owner are not those of an owner.
pub proof fn lemma_owners_have_their_own(
    all: Map<Seq<char>, MonEntryView>,
    id: Seq<char>,
    owner_id: Seq<char>,
)
    ensures
        owned_names(all, owner_id).contains(id) <==> all.contains_key(id) && all[id].owner_id
            == owner_id,
{
}

/// A report names what was watched and lists each rate on a line of its own.
pub proof fn lemma_report_lists_every_rate(
    iface: Seq<char>,
    interval: u64,
    duration: u64,
    average: Seq<char>,
    peak: Seq<char>,
    records: Seq<RateLine>,
    n: int,
)
    requires
        0 < n <= records.len(),
    ensures
        report_to(iface, interval, duration, average, peak, records, n) == report_to(
            iface,
            interval,
            duration,
            average,
            peak,
            records,
            n - 1,
        ) + (records[n - 1].time@ + ","@ + records[n - 1].speed@ + "\n"@),
        has(report_to(iface, interval, duration, average, peak, records, 0), "# Interface,"@ + iface),
        has(
            report_to(iface, interval, duration, average, peak, records, 0),
            "# Average (Mbps),"@ + average + "\n# Peak (Mbps),"@ + peak,
        ),
        has(
            report_to(iface, interval, duration, average, peak, records, 0),
            "# Interval,"@ + decimal(interval as nat) + "s\n# Duration,"@ + decimal(duration as nat),
        ),
{
    reveal_strlit("\u{FEFF}# === CPE NIC Monitor Report ===\n# Interface,");
    reveal_strlit("# Interface,");
    reveal_strlit("\n# Interval,");
    reveal_strlit("# Interval,");
    reveal_strlit("s\n# Average (Mbps),");
    reveal_strlit("# Average (Mbps),");
    let head = report_to(iface, interval, duration, average, peak, records, 0);
    let a = "\u{FEFF}# === CPE NIC Monitor Report ===\n# Interface,"@;
    let b = "\n# Interval,"@;
    let c = "s\n# Duration,"@;
    let d = "s\n# Average (Mbps),"@;
    let e = "\n# Peak (Mbps),"@;
    let (x, y) = (decimal(interval as nat), decimal(duration as nat));
    let p = a.len() - "# Interface,"@.len();
    let one = "# Interface,"@ + iface;
    assert(a.skip(p) =~= "# Interface,"@);
    assert(head.subrange(p, p + one.len()) =~= one);
    assert(crate::text::occurs_at(head, one, p));
    let q = (a.len() + iface.len() + 1) as int;
    let two = "# Interval,"@ + x + c + y;
    assert(b.skip(1) =~= "# Interval,"@);
    assert(head.subrange(q, q + two.len()) =~= two);
    assert(crate::text::occurs_at(head, two, q));
    let r = (a.len() + iface.len() + b.len() + x.len() + c.len() + y.len() + 2) as int;
    let three = "# Average (Mbps),"@ + average + e + peak;
    assert(d.skip(2) =~= "# Average (Mbps),"@);
    assert(head.subrange(r, r + three.len()) =~= three);
    assert(crate::text::occurs_at(head, three, r));
}

} // verus!
