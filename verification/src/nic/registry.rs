//! The monitors that run on a host: who owns them, how long they may live, and how they end.
use vstd::prelude::*;
use vstd::string::*;
use crate::nic::counter::NicCounterReader;
use crate::nic::monitor::{
    at_least, no_less, rx_total, since, time_since, tx_total, CounterState, Sampling, SamplingView,
    StopSignal,
};
use crate::protocol::{
    MonitorSample, MonitorSampleView, MonitorStatusOut, MonitorStatusOutView, MonitorStopOut,
    MonitorStopOutView,
};
use crate::text::{
    cat2, cat3, decimal, decimal_text, group_views, is_text_before, lemma_text_before_irreflexive,
    lemma_text_before_transitive, lemma_text_total, owned, same, text_before, texts, told, views,
};

verus! {

// ---------------------------------------------------------------------------
// Entries
// ---------------------------------------------------------------------------

/// A monitor that runs.
#[derive(Debug)]
pub struct MonEntry {
    pub iface: String,
    /// Who the monitor belongs to; empty where nobody was named.
    pub owner_id: String,
    /// How long the monitor may live; zero leaves that to the sweep.
    pub lease_secs: u64,
    pub start_rx: u64,
    pub start_tx: u64,
    pub interval_ms: u64,
    pub stop: StopSignal,
    /// Whether its sampling ended by a fault.
    pub panicked: bool,
    pub sampling: Sampling,
}

/// What a [`MonEntry`] holds.
pub ghost struct MonEntryView {
    pub iface: Seq<char>,
    pub owner_id: Seq<char>,
    pub lease_secs: u64,
    pub start_rx: u64,
    pub start_tx: u64,
    pub interval_ms: u64,
    pub stop: StopSignal,
    pub panicked: bool,
    pub sampling: SamplingView,
}

impl View for MonEntry {
    type V = MonEntryView;

    open spec fn view(&self) -> MonEntryView {
        MonEntryView {
            iface: self.iface@,
            owner_id: self.owner_id@,
            lease_secs: self.lease_secs,
            start_rx: self.start_rx,
            start_tx: self.start_tx,
            interval_ms: self.interval_ms,
            stop: self.stop,
            panicked: self.panicked,
            sampling: self.sampling@,
        }
    }
}

impl MonEntryView {
    /// Whether the bytes of all its samples can be counted.
    pub open spec fn totals_fit(self) -> bool {
        rx_total(self.sampling.samples) <= u64::MAX && tx_total(self.sampling.samples) <= u64::MAX
    }

    /// Whether the monitor has lived as long as it may: by its own lease, or by `legacy_max_age`
    /// nanoseconds where it has none.
    pub open spec fn expired(self, now: u64, legacy_max_age: u64) -> bool {
        since(now, self.sampling.t0) >= if self.lease_secs == 0 {
            legacy_max_age as int
        } else {
            self.lease_secs * 1_000_000_000
        }
    }

    /// The monitor after a request to stop.
    pub open spec fn asked_to_stop(self, now: u64) -> MonEntryView {
        MonEntryView { stop: self.stop.requested(now), ..self }
    }

    /// What a stop at `now` reports; `last_read` is what came of reading the counters once more, and
    /// counts only where there are no samples.
    pub open spec fn settled(
        self,
        now: u64,
        last_read: Option<Result<(u64, u64), Seq<char>>>,
    ) -> MonitorStopOutView {
        let stopped_at = match self.stop.requested_at {
            Some(at) => at,
            None => now,
        };
        let errors = if self.panicked {
            self.sampling.errors.push(self.iface + " 采样线程异常退出"@)
        } else {
            self.sampling.errors
        };
        let (rx, tx, all_errors) = match last_read {
            None => (
                rx_total(self.sampling.samples) as u64,
                tx_total(self.sampling.samples) as u64,
                errors,
            ),
            Some(Ok(counters)) => (
                since(counters.0, self.start_rx),
                since(counters.1, self.start_tx),
                errors,
            ),
            Some(Err(e)) => (
                0u64,
                0u64,
                errors.push(self.iface + " 停止时无法读取计数器: "@ + e),
            ),
        };
        MonitorStopOutView {
            nanos: at_least(since(stopped_at, self.sampling.t0), 1_000_000),
            bytes: rx,
            tx_bytes: tx,
            samples: self.sampling.samples,
            errors: all_errors,
        }
    }
}

/// Whether a stop at `now` may report `out`: what the samples give, or what a reader answers where
/// there are none.
pub open spec fn may_report<R: NicCounterReader>(
    reader: &R,
    entry: MonEntryView,
    now: u64,
    out: MonitorStopOutView,
) -> bool {
    if entry.sampling.samples.len() > 0 {
        out == entry.settled(now, None)
    } else {
        exists|iface: &str, answer: Result<(u64, u64), String>|
            iface@ == entry.iface && #[trigger] call_ensures(
                R::read_counters,
                (reader, iface),
                answer,
            ) && out == entry.settled(now, Some(told(answer)))
    }
}

/// The sums of the valid bytes received and sent, where they can be counted.
pub fn totals(samples: &Vec<MonitorSample>) -> (r: Option<(u64, u64)>)
    ensures
        r == if rx_total(views(samples@)) <= u64::MAX && tx_total(views(samples@)) <= u64::MAX {
            Some((rx_total(views(samples@)) as u64, tx_total(views(samples@)) as u64))
        } else {
            None
        },
{
    let ghost all = views(samples@);
    let mut rx: u64 = 0;
    let mut tx: u64 = 0;
    let mut i: usize = 0;
    while i < samples.len()
        invariant
            i <= samples@.len(),
            all == views(samples@),
            all.len() == samples@.len(),
            rx == rx_total(all.take(i as int)),
            tx == tx_total(all.take(i as int)),
        decreases samples@.len() - i,
    {
        assert(all.take(i + 1).drop_last() =~= all.take(i as int));
        assert(all.take(i + 1).last() == samples@[i as int]@);
        proof {
            lemma_totals_grow(all, i + 1);
        }
        if samples[i].valid {
            let a: u64 = samples[i].rx_delta_bytes;
            let b: u64 = samples[i].tx_delta_bytes;
            if a > u64::MAX - rx || b > u64::MAX - tx {
                return None;
            }
            rx = rx + a;
            tx = tx + b;
        }
        i += 1;
    }
    assert(all.take(all.len() as int) =~= all);
    Some((rx, tx))
}

proof fn lemma_totals_grow(samples: Seq<MonitorSampleView>, i: int)
    requires
        0 <= i <= samples.len(),
    ensures
        rx_total(samples.take(i)) <= rx_total(samples),
        tx_total(samples.take(i)) <= tx_total(samples),
    decreases samples.len() - i,
{
    if i == samples.len() {
        assert(samples.take(i) =~= samples);
    } else {
        lemma_totals_grow(samples, i + 1);
        assert(samples.take(i + 1).drop_last() =~= samples.take(i));
    }
}

impl MonEntry {
    /// Ends the monitor at `now` and reports what it found. Its counters are read once more only
    /// where there are no samples.
    pub fn settle<R: NicCounterReader>(self, reader: &R, now: u64) -> (r: MonitorStopOut)
        requires
            self@.totals_fit(),
        ensures
            may_report(reader, self@, now, r@),
    {
        broadcast use group_views;

        let ghost entry = self@;
        let iface = self.iface;
        let mut signal = self.stop;
        let stopped_at: u64 = signal.request_stop(now);
        let t0: u64 = self.sampling.t0;
        let samples = self.sampling.samples;
        let mut errors = self.sampling.errors;
        if self.panicked {
            errors.push(cat2(iface.as_str(), " 采样线程异常退出"));
        }
        let ghost told_errors = texts(errors@);
        let nanos: u64 = no_less(time_since(stopped_at, t0), 1_000_000);
        if samples.len() > 0 {
            let (rx, tx) = match totals(&samples) {
                Some(sums) => sums,
                None => (0, 0),
            };
            let out = MonitorStopOut { nanos, bytes: rx, tx_bytes: tx, samples, errors };
            assert(out@ == entry.settled(now, None));
            return out;
        }
        let name = iface.as_str();
        let answer = reader.read_counters(name);
        let ghost answered = answer;
        let (rx, tx): (u64, u64) = match answer {
            Ok(counters) => (
                time_since(counters.0, self.start_rx),
                time_since(counters.1, self.start_tx),
            ),
            Err(e) => {
                errors.push(cat3(iface.as_str(), " 停止时无法读取计数器: ", e.as_str()));
                (0, 0)
            },
        };
        let out = MonitorStopOut { nanos, bytes: rx, tx_bytes: tx, samples, errors };
        assert(out@ == entry.settled(now, Some(told(answered))));
        out
    }

    /// Whether the monitor has lived as long as it may.
    pub fn is_expired(&self, now: u64, legacy_max_age: u64) -> (r: bool)
        ensures
            r == self@.expired(now, legacy_max_age),
    {
        let age: u64 = time_since(now, self.sampling.t0);
        if self.lease_secs == 0 {
            age >= legacy_max_age
        } else {
            age as u128 >= self.lease_secs as u128 * 1_000_000_000
        }
    }
}

// ---------------------------------------------------------------------------
// The registry
// ---------------------------------------------------------------------------

/// A monitor under its name.
#[derive(Debug)]
struct Registered {
    id: String,
    entry: MonEntry,
}

/// Whether a list holds a name.
spec fn holds(s: Seq<Registered>, id: Seq<char>) -> bool {
    exists|i: int| 0 <= i < s.len() && (#[trigger] s[i]).id@ == id
}

/// Where a list holds a name.
spec fn place(s: Seq<Registered>, id: Seq<char>) -> int {
    choose|i: int| 0 <= i < s.len() && (#[trigger] s[i]).id@ == id
}

/// A list as a map from names.
spec fn table(s: Seq<Registered>) -> Map<Seq<char>, MonEntryView> {
    Map::new(|id: Seq<char>| holds(s, id), |id: Seq<char>| s[place(s, id)].entry@)
}

/// Whether no name stands twice in a list.
spec fn distinct_ids(s: Seq<Registered>) -> bool {
    forall|i: int, j: int|
        0 <= i < j < s.len() ==> (#[trigger] s[i]).id@ != (#[trigger] s[j]).id@
}

proof fn lemma_table(s: Seq<Registered>, i: int)
    requires
        distinct_ids(s),
        0 <= i < s.len(),
    ensures
        table(s).contains_key(s[i].id@),
        table(s)[s[i].id@] == s[i].entry@,
{
    assert(holds(s, s[i].id@));
    let p = place(s, s[i].id@);
    assert(0 <= p < s.len() && s[p].id@ == s[i].id@);
    if p < i {
        assert(s[p].id@ != s[i].id@);
    } else if i < p {
        assert(s[i].id@ != s[p].id@);
    }
}

proof fn lemma_table_push(s: Seq<Registered>, x: Registered)
    requires
        distinct_ids(s),
        !holds(s, x.id@),
    ensures
        distinct_ids(s.push(x)),
        table(s.push(x)) == table(s).insert(x.id@, x.entry@),
{
    let t = s.push(x);
    assert(distinct_ids(t)) by {
        assert forall|i: int, j: int| 0 <= i < j < t.len() implies (#[trigger] t[i]).id@ != (
        #[trigger] t[j]).id@ by {
            if j == s.len() {
                assert(s[i].id@ != x.id@);
            } else {
                assert(s[i].id@ != s[j].id@);
            }
        }
    }
    assert forall|id: Seq<char>| table(t).contains_key(id) implies #[trigger] table(s).insert(
        x.id@,
        x.entry@,
    ).contains_key(id) && table(t)[id] == table(s).insert(x.id@, x.entry@)[id] by {
        let p = place(t, id);
        assert(0 <= p < t.len() && t[p].id@ == id);
        lemma_table(t, p);
        if p < s.len() {
            lemma_table(s, p);
        }
    }
    assert forall|id: Seq<char>| #[trigger]
        table(s).insert(x.id@, x.entry@).contains_key(id) implies table(t).contains_key(id) by {
        if id == x.id@ {
            lemma_table(t, s.len() as int);
        } else {
            let p = place(s, id);
            assert(holds(s, id));
            assert(0 <= p < s.len() && s[p].id@ == id);
            assert(t[p].id@ == id);
            lemma_table(t, p);
        }
    }
    assert(table(t) =~= table(s).insert(x.id@, x.entry@));
}

proof fn lemma_table_remove(s: Seq<Registered>, i: int)
    requires
        distinct_ids(s),
        0 <= i < s.len(),
    ensures
        distinct_ids(s.remove(i)),
        !holds(s.remove(i), s[i].id@),
        table(s.remove(i)) == table(s).remove(s[i].id@),
{
    let t = s.remove(i);
    let gone = s[i].id@;
    assert forall|a: int, b: int| 0 <= a < b < t.len() implies (#[trigger] t[a]).id@ != (
    #[trigger] t[b]).id@ by {
        let x = if a < i {
            a
        } else {
            a + 1
        };
        let y = if b < i {
            b
        } else {
            b + 1
        };
        assert(t[a] == s[x] && t[b] == s[y]);
        assert(s[x].id@ != s[y].id@);
    }
    if holds(t, gone) {
        let a = place(t, gone);
        assert(0 <= a < t.len() && t[a].id@ == gone);
        if a < i {
            assert(s[a].id@ != s[i].id@);
        } else {
            assert(t[a] == s[a + 1]);
            assert(s[i].id@ != s[a + 1].id@);
        }
    }
    assert forall|id: Seq<char>| #[trigger] table(t).contains_key(id) implies table(s).remove(
        gone,
    ).contains_key(id) && table(t)[id] == table(s).remove(gone)[id] by {
        let p = place(t, id);
        assert(0 <= p < t.len() && t[p].id@ == id);
        lemma_table(t, p);
        let x = if p < i {
            p
        } else {
            p + 1
        };
        assert(t[p] == s[x]);
        lemma_table(s, x);
    }
    assert forall|id: Seq<char>| #[trigger]
        table(s).remove(gone).contains_key(id) implies table(t).contains_key(id) by {
        assert(holds(s, id));
        let p = place(s, id);
        assert(0 <= p < s.len() && s[p].id@ == id);
        let x = if p < i {
            p
        } else {
            p - 1
        };
        assert(t[x] == s[p]);
        lemma_table(t, x);
    }
    assert(table(t) =~= table(s).remove(gone));
}

proof fn lemma_table_update(s: Seq<Registered>, i: int, x: Registered)
    requires
        distinct_ids(s),
        0 <= i < s.len(),
        x.id@ == s[i].id@,
    ensures
        distinct_ids(s.update(i, x)),
        table(s.update(i, x)) == table(s).insert(x.id@, x.entry@),
{
    let t = s.update(i, x);
    assert forall|a: int, b: int| 0 <= a < b < t.len() implies (#[trigger] t[a]).id@ != (
    #[trigger] t[b]).id@ by {
        assert(s[a].id@ != s[b].id@);
    }
    assert forall|id: Seq<char>| #[trigger] table(t).contains_key(id) implies table(s).insert(
        x.id@,
        x.entry@,
    ).contains_key(id) && table(t)[id] == table(s).insert(x.id@, x.entry@)[id] by {
        let p = place(t, id);
        assert(0 <= p < t.len() && t[p].id@ == id);
        lemma_table(t, p);
        lemma_table(s, p);
        if p != i {
            if p < i {
                assert(s[p].id@ != s[i].id@);
            } else {
                assert(s[i].id@ != s[p].id@);
            }
        }
    }
    assert forall|id: Seq<char>| #[trigger]
        table(s).insert(x.id@, x.entry@).contains_key(id) implies table(t).contains_key(id) by {
        if id == x.id@ {
            lemma_table(t, i);
        } else {
            assert(holds(s, id));
            let p = place(s, id);
            assert(0 <= p < s.len() && s[p].id@ == id);
            assert(t[p].id@ == id);
            lemma_table(t, p);
        }
    }
    assert(table(t) =~= table(s).insert(x.id@, x.entry@));
}

/// The monitors that run on a host, by name.
#[derive(Debug)]
pub struct MonitorMgr {
    running: Vec<Registered>,
    seq: u64,
}

impl View for MonitorMgr {
    type V = Map<Seq<char>, MonEntryView>;

    closed spec fn view(&self) -> Map<Seq<char>, MonEntryView> {
        table(self.running@)
    }
}

/// What is said where there is no monitor of a name.
pub open spec fn unknown_text(id: Seq<char>) -> Seq<char> {
    "监控 ID 不存在: "@ + id
}

/// What is said of a lease that reaches past the end of the clock.
pub open spec fn lease_text(lease_secs: u64) -> Seq<char> {
    "monitor lease_secs="@ + decimal(lease_secs as nat) + " 过大，无法表示截止时间"@
}

/// Refuses a lease whose end the clock cannot show, before any interface is touched.
pub fn admit_lease(lease_secs: u64, deadline_fits: bool) -> (r: Result<(), String>)
    ensures
        told(r) == if lease_secs > 0 && !deadline_fits {
            Err::<(), Seq<char>>(lease_text(lease_secs))
        } else {
            Ok::<(), Seq<char>>(())
        },
{
    if lease_secs > 0 && !deadline_fits {
        let number = decimal_text(lease_secs);
        return Err(cat3("monitor lease_secs=", number.as_str(), " 过大，无法表示截止时间"));
    }
    Ok(())
}

/// An interval within what a monitor samples at.
pub open spec fn clamped_interval(interval_ms: u64) -> u64 {
    if interval_ms < 200 {
        200
    } else if interval_ms > 5_000 {
        5_000
    } else {
        interval_ms
    }
}

/// The name of the monitor with a number.
pub open spec fn monitor_name(seq: u64) -> Seq<char> {
    "mon"@ + decimal(seq as nat)
}

/// A monitor as it starts.
pub open spec fn started(
    iface: Seq<char>,
    interval_ms: u64,
    owner_id: Seq<char>,
    lease_secs: u64,
    counters: (u64, u64),
    t0: u64,
) -> MonEntryView {
    MonEntryView {
        iface,
        owner_id,
        lease_secs,
        start_rx: counters.0,
        start_tx: counters.1,
        interval_ms: clamped_interval(interval_ms),
        stop: StopSignal { requested_at: None },
        panicked: false,
        sampling: SamplingView {
            t0,
            state: CounterState {
                rx: counters.0,
                tx: counters.1,
                baseline_at: t0,
                attempted_at: t0,
            },
            samples: Seq::empty(),
            errors: Seq::empty(),
        },
    }
}

impl MonitorMgr {
    /// Whether the registry is in order: no name stands twice.
    pub closed spec fn wf(&self) -> bool {
        distinct_ids(self.running@)
    }

    /// The number of the next monitor.
    pub closed spec fn next_seq(&self) -> u64 {
        self.seq
    }

    /// A registry without monitors.
    pub fn new() -> (r: MonitorMgr)
        ensures
            r.wf(),
            r@ == Map::<Seq<char>, MonEntryView>::empty(),
            r.next_seq() == 1,
    {
        let r = MonitorMgr { running: Vec::new(), seq: 1 };
        assert(r@ =~= Map::<Seq<char>, MonEntryView>::empty());
        r
    }

    /// Where a name stands.
    fn find(&self, id: &str) -> (r: Option<usize>)
        requires
            self.wf(),
        ensures
            match r {
                Some(i) => i < self.running@.len() && self.running@[i as int].id@ == id@
                    && self@.contains_key(id@) && self@[id@] == self.running@[i as int].entry@,
                None => !self@.contains_key(id@) && !holds(self.running@, id@),
            },
    {
        let mut i: usize = 0;
        while i < self.running.len()
            invariant
                i <= self.running@.len(),
                distinct_ids(self.running@),
                forall|k: int| 0 <= k < i ==> (#[trigger] self.running@[k]).id@ != id@,
            decreases self.running@.len() - i,
        {
            if same(self.running[i].id.as_str(), id) {
                proof {
                    lemma_table(self.running@, i as int);
                }
                return Some(i);
            }
            i += 1;
        }
        None
    }

    /// How many monitors run.
    pub fn len(&self) -> (r: usize)
        requires
            self.wf(),
        ensures
            r == self@.dom().len(),
    {
        proof {
            lemma_table_size(self.running@);
        }
        self.running.len()
    }

    /// Whether a monitor of a name runs.
    pub fn contains(&self, id: &str) -> (r: bool)
        requires
            self.wf(),
        ensures
            r == self@.contains_key(id@),
    {
        self.find(id).is_some()
    }

    /// How long the sampling of a monitor waits between two readings.
    pub fn interval_ms(&self, id: &str) -> (r: Option<u64>)
        requires
            self.wf(),
        ensures
            r == if self@.contains_key(id@) {
                Some(self@[id@].interval_ms)
            } else {
                None
            },
    {
        match self.find(id) {
            Some(i) => Some(self.running[i].entry.interval_ms),
            None => None,
        }
    }

    /// Since when a monitor is asked to stop.
    pub fn requested_at(&self, id: &str) -> (r: Option<u64>)
        requires
            self.wf(),
        ensures
            r == if self@.contains_key(id@) {
                self@[id@].stop.requested_at
            } else {
                None
            },
    {
        match self.find(id) {
            Some(i) => self.running[i].entry.stop.requested_at,
            None => None,
        }
    }

    /// Sets a monitor under a name, in place of one that had it.
    pub fn insert(&mut self, id: String, entry: MonEntry)
        requires
            old(self).wf(),
        ensures
            final(self).wf(),
            final(self)@ == old(self)@.insert(id@, entry@),
            final(self).next_seq() == old(self).next_seq(),
    {
        let ghost before = self.running@;
        let x = Registered { id, entry };
        match self.find(x.id.as_str()) {
            Some(i) => {
                proof {
                    lemma_table_update(before, i as int, x);
                }
                self.running.set(i, x);
            },
            None => {
                proof {
                    lemma_table_push(before, x);
                }
                self.running.push(x);
            },
        }
    }

    /// Takes the monitor of a name out.
    pub fn remove(&mut self, id: &str) -> (r: Option<MonEntry>)
        requires
            old(self).wf(),
        ensures
            final(self).wf(),
            final(self)@ == old(self)@.remove(id@),
            final(self).next_seq() == old(self).next_seq(),
            crate::text::opt_view(r) == if old(self)@.contains_key(id@) {
                Some(old(self)@[id@])
            } else {
                None
            },
    {
        let ghost before = self.running@;
        match self.find(id) {
            Some(i) => {
                proof {
                    lemma_table_remove(before, i as int);
                }
                let x = self.running.remove(i);
                Some(x.entry)
            },
            None => {
                assert(self@.remove(id@) =~= self@);
                None
            },
        }
    }

    /// Starts a monitor that belongs to an owner and may live for a lease, from what came of reading
    /// the counters; says its name.
    pub fn start_owned(
        &mut self,
        iface: &str,
        interval_ms: u64,
        owner_id: &str,
        lease_secs: u64,
        deadline_fits: bool,
        read: Result<(u64, u64), String>,
        t0: u64,
    ) -> (r: Result<String, String>)
        requires
            old(self).wf(),
        ensures
            final(self).wf(),
            lease_secs > 0 && !deadline_fits ==> r is Err && r->Err_0@ == lease_text(lease_secs)
                && final(self)@ == old(self)@ && final(self).next_seq() == old(self).next_seq(),
            (lease_secs == 0 || deadline_fits) && read is Err ==> r is Err && r->Err_0@
                == read->Err_0@ && final(self)@ == old(self)@ && final(self).next_seq() == old(
                self,
            ).next_seq(),
            (lease_secs == 0 || deadline_fits) && read is Ok ==> {
                &&& r is Ok
                &&& r->Ok_0@ == monitor_name(old(self).next_seq())
                &&& final(self)@ == old(self)@.insert(
                    r->Ok_0@,
                    started(iface@, interval_ms, owner_id@, lease_secs, read->Ok_0, t0),
                )
                &&& final(self).next_seq() == old(self).next_seq().wrapping_add(1)
            },
    {
        match admit_lease(lease_secs, deadline_fits) {
            Err(e) => {
                return Err(e);
            },
            Ok(_) => {},
        }
        let (rx, tx) = match read {
            Ok(counters) => counters,
            Err(e) => {
                return Err(e);
            },
        };
        let interval: u64 = if interval_ms < 200 {
            200
        } else if interval_ms > 5_000 {
            5_000
        } else {
            interval_ms
        };
        let number = decimal_text(self.seq);
        let id = cat2("mon", number.as_str());
        self.seq = self.seq.wrapping_add(1);
        let entry = MonEntry {
            iface: owned(iface),
            owner_id: owned(owner_id),
            lease_secs,
            start_rx: rx,
            start_tx: tx,
            interval_ms: interval,
            stop: StopSignal::new(),
            panicked: false,
            sampling: Sampling::new(rx, tx, t0),
        };
        self.insert(id.clone(), entry);
        Ok(id)
    }

    /// Starts a monitor that belongs to nobody and has no lease.
    pub fn start(
        &mut self,
        iface: &str,
        interval_ms: u64,
        read: Result<(u64, u64), String>,
        t0: u64,
    ) -> (r: Result<String, String>)
        requires
            old(self).wf(),
        ensures
            final(self).wf(),
            read is Err ==> r is Err && r->Err_0@ == read->Err_0@ && final(self)@ == old(self)@
                && final(self).next_seq() == old(self).next_seq(),
            read is Ok ==> {
                &&& r is Ok
                &&& r->Ok_0@ == monitor_name(old(self).next_seq())
                &&& final(self)@ == old(self)@.insert(
                    r->Ok_0@,
                    started(iface@, interval_ms, ""@, 0, read->Ok_0, t0),
                )
                &&& final(self).next_seq() == old(self).next_seq().wrapping_add(1)
            },
    {
        self.start_owned(iface, interval_ms, "", 0, true, read, t0)
    }

    /// The state of a monitor, which goes on.
    pub fn status(&self, id: &str) -> (r: Result<MonitorStatusOut, String>)
        requires
            self.wf(),
        ensures
            !self@.contains_key(id@) ==> r is Err && r->Err_0@ == unknown_text(id@),
            self@.contains_key(id@) ==> r is Ok && r->Ok_0@ == ({
                let sampling = self@[id@].sampling;
                MonitorStatusOutView {
                    id: id@,
                    iface: self@[id@].iface,
                    sample_count: sampling.samples.len() as usize,
                    latest_sample: if sampling.samples.len() > 0 {
                        Some(sampling.samples.last())
                    } else {
                        None
                    },
                    error_count: sampling.errors.len() as usize,
                    latest_error: if sampling.errors.len() > 0 {
                        sampling.errors.last()
                    } else {
                        Seq::empty()
                    },
                }
            }),
    {
        match self.find(id) {
            None => Err(cat2("监控 ID 不存在: ", id)),
            Some(i) => {
                let entry = &self.running[i].entry;
                let n: usize = entry.sampling.samples.len();
                let m: usize = entry.sampling.errors.len();
                let latest_sample = if n > 0 {
                    Some(entry.sampling.samples[n - 1].clone())
                } else {
                    None
                };
                let latest_error = if m > 0 {
                    entry.sampling.errors[m - 1].clone()
                } else {
                    String::new()
                };
                assert(m == 0 ==> latest_error@ =~= Seq::<char>::empty());
                Ok(
                    MonitorStatusOut {
                        id: owned(id),
                        iface: entry.iface.clone(),
                        sample_count: n,
                        latest_sample,
                        error_count: m,
                        latest_error,
                    },
                )
            },
        }
    }

    /// Asks a monitor to stop, and says since when that is asked.
    pub fn request_stop(&mut self, id: &str, now: u64) -> (r: Option<u64>)
        requires
            old(self).wf(),
        ensures
            final(self).wf(),
            !old(self)@.contains_key(id@) ==> r is None && final(self)@ == old(self)@,
            old(self)@.contains_key(id@) ==> {
                &&& final(self)@ == old(self)@.insert(id@, old(self)@[id@].asked_to_stop(now))
                &&& r == old(self)@[id@].asked_to_stop(now).stop.requested_at
            },
            final(self).next_seq() == old(self).next_seq(),
    {
        match self.remove(id) {
            None => {
                assert(self@ =~= old(self)@);
                None
            },
            Some(entry) => {
                let mut entry = entry;
                let at: u64 = entry.stop.request_stop(now);
                self.insert(owned(id), entry);
                assert(self@ =~= old(self)@.insert(id@, old(self)@[id@].asked_to_stop(now)));
                Some(at)
            },
        }
    }

    /// Takes a reading for a monitor, and says whether it was the last; that of a monitor that is
    /// gone is.
    pub fn observe(
        &mut self,
        id: &str,
        result: Result<(u64, u64), String>,
        observed_at: u64,
        stop_on_wake: Option<u64>,
        stop_after: Option<u64>,
    ) -> (r: bool)
        requires
            old(self).wf(),
        ensures
            final(self).wf(),
            !old(self)@.contains_key(id@) ==> r && final(self)@ == old(self)@,
            old(self)@.contains_key(id@) ==> ({
                let entry = old(self)@[id@];
                let stop = crate::nic::monitor::either(stop_on_wake, stop_after);
                &&& final(self)@ == old(self)@.insert(
                    id@,
                    (MonEntryView {
                        sampling: entry.sampling.read(
                            told(result),
                            crate::nic::monitor::sample_time(stop, observed_at),
                        ),
                        ..entry
                    }),
                )
                &&& r == match crate::nic::monitor::either(stop, entry.stop.requested_at) {
                    Some(at) => at <= observed_at,
                    None => false,
                }
            }),
            final(self).next_seq() == old(self).next_seq(),
    {
        match self.remove(id) {
            None => {
                assert(self@ =~= old(self)@);
                true
            },
            Some(entry) => {
                let mut entry = entry;
                let late = entry.stop.requested_at;
                let last = entry.sampling.observe(
                    result,
                    observed_at,
                    stop_on_wake,
                    stop_after,
                    late,
                );
                let ghost after = entry@;
                self.insert(owned(id), entry);
                assert(self@ =~= old(self)@.insert(id@, after));
                last
            },
        }
    }

    /// Notes that a monitor's sampling ended by a fault.
    pub fn mark_panicked(&mut self, id: &str)
        requires
            old(self).wf(),
        ensures
            final(self).wf(),
            final(self)@ == if old(self)@.contains_key(id@) {
                old(self)@.insert(id@, (MonEntryView { panicked: true, ..old(self)@[id@] }))
            } else {
                old(self)@
            },
            final(self).next_seq() == old(self).next_seq(),
    {
        match self.remove(id) {
            None => {
                assert(self@ =~= old(self)@);
            },
            Some(entry) => {
                let mut entry = entry;
                entry.panicked = true;
                let ghost after = entry@;
                self.insert(owned(id), entry);
                assert(self@ =~= old(self)@.insert(id@, after));
            },
        }
    }

    /// Whether the bytes of all samples of every monitor can be counted.
    pub fn totals_fit(&self) -> (r: bool)
        requires
            self.wf(),
        ensures
            r == forall|id: Seq<char>| #[trigger]
                self@.contains_key(id) ==> self@[id].totals_fit(),
    {
        let mut i: usize = 0;
        while i < self.running.len()
            invariant
                i <= self.running@.len(),
                distinct_ids(self.running@),
                forall|k: int| 0 <= k < i ==> (#[trigger] self.running@[k]).entry@.totals_fit(),
            decreases self.running@.len() - i,
        {
            if totals(&self.running[i].entry.sampling.samples).is_none() {
                proof {
                    lemma_table(self.running@, i as int);
                    let bad = self.running@[i as int].id@;
                    assert(self@.contains_key(bad) && !self@[bad].totals_fit());
                }
                return false;
            }
            i += 1;
        }
        proof {
            assert forall|id: Seq<char>| #[trigger] self@.contains_key(id) implies self@[id].totals_fit()
                by {
                assert(holds(self.running@, id));
                let p = place(self.running@, id);
                assert(0 <= p < self.running@.len() && self.running@[p].id@ == id);
                lemma_table(self.running@, p);
            }
        }
        true
    }

    /// Stops a monitor at `now` and reports what it found.
    pub fn stop<R: NicCounterReader>(&mut self, reader: &R, id: &str, now: u64) -> (r: Result<
        MonitorStopOut,
        String,
    >)
        requires
            old(self).wf(),
            old(self)@.contains_key(id@) ==> old(self)@[id@].totals_fit(),
        ensures
            final(self).wf(),
            final(self)@ == old(self)@.remove(id@),
            final(self).next_seq() == old(self).next_seq(),
            !old(self)@.contains_key(id@) ==> r is Err && r->Err_0@ == unknown_text(id@),
            old(self)@.contains_key(id@) ==> r is Ok && may_report(
                reader,
                old(self)@[id@],
                now,
                r->Ok_0@,
            ),
    {
        match self.remove(id) {
            None => Err(cat2("监控 ID 不存在: ", id)),
            Some(entry) => Ok(entry.settle(reader, now)),
        }
    }

    /// The names of an owner's monitors, in order.
    pub fn owned_by(&self, owner_id: &str) -> (r: Vec<String>)
        requires
            self.wf(),
        ensures
            in_order(texts(r@)),
            forall|id: Seq<char>| #[trigger]
                texts(r@).contains(id) <==> self@.contains_key(id) && self@[id].owner_id
                    == owner_id@,
    {
        broadcast use group_views;

        let mut r: Vec<String> = Vec::new();
        let mut i: usize = 0;
        let ghost all = self.running@;
        while i < self.running.len()
            invariant
                i <= self.running@.len(),
                all == self.running@,
                distinct_ids(all),
                in_order(texts(r@)),
                forall|id: Seq<char>| #[trigger]
                    texts(r@).contains(id) <==> exists|k: int|
                        0 <= k < i && (#[trigger] all[k]).id@ == id && all[k].entry@.owner_id
                            == owner_id@,
            decreases self.running@.len() - i,
        {
            let ghost before = texts(r@);
            if same(self.running[i].entry.owner_id.as_str(), owner_id) {
                proof {
                    if before.contains(all[i as int].id@) {
                        let k = choose|k: int|
                            0 <= k < i && (#[trigger] all[k]).id@ == all[i as int].id@
                                && all[k].entry@.owner_id == owner_id@;
                        assert(all[k].id@ != all[i as int].id@);
                    }
                }
                place_text(&mut r, self.running[i].id.clone());
                assert forall|id: Seq<char>| #[trigger] texts(r@).contains(id) <==> exists|k: int|
                    0 <= k < i + 1 && (#[trigger] all[k]).id@ == id && all[k].entry@.owner_id
                        == owner_id@ by {
                    assert(texts(r@).contains(id) <==> before.contains(id) || id
                        == all[i as int].id@);
                    if before.contains(id) {
                        let k = choose|k: int|
                            0 <= k < i && (#[trigger] all[k]).id@ == id && all[k].entry@.owner_id
                                == owner_id@;
                        assert(0 <= k < i + 1 && all[k].id@ == id);
                    }
                    if id == all[i as int].id@ {
                        assert(0 <= i < i + 1 && all[i as int].id@ == id);
                    }
                }
            } else {
                assert forall|id: Seq<char>| #[trigger] texts(r@).contains(id) <==> exists|k: int|
                    0 <= k < i + 1 && (#[trigger] all[k]).id@ == id && all[k].entry@.owner_id
                        == owner_id@ by {
                    if before.contains(id) {
                        let k = choose|k: int|
                            0 <= k < i && (#[trigger] all[k]).id@ == id && all[k].entry@.owner_id
                                == owner_id@;
                        assert(0 <= k < i + 1 && all[k].id@ == id);
                    }
                }
            }
            i += 1;
        }
        proof {
            assert forall|id: Seq<char>| #[trigger] texts(r@).contains(id) <==> self@.contains_key(id)
                && self@[id].owner_id == owner_id@ by {
                if texts(r@).contains(id) {
                    let k = choose|k: int|
                        0 <= k < i && (#[trigger] all[k]).id@ == id && all[k].entry@.owner_id
                            == owner_id@;
                    lemma_table(all, k);
                }
                if self@.contains_key(id) && self@[id].owner_id == owner_id@ {
                    assert(holds(all, id));
                    let p = place(all, id);
                    assert(0 <= p < all.len() && all[p].id@ == id);
                    lemma_table(all, p);
                }
            }
        }
        r
    }

    /// Stops an owner's monitors at `now` and reports what each found, in the order of their names.
    pub fn stop_owner<R: NicCounterReader>(&mut self, reader: &R, owner_id: &str, now: u64) -> (r:
        Vec<(String, Result<MonitorStopOut, String>)>)
        requires
            old(self).wf(),
            forall|id: Seq<char>| #[trigger]
                old(self)@.contains_key(id) && old(self)@[id].owner_id == owner_id@ ==> old(
                    self,
                )@[id].totals_fit(),
        ensures
            final(self).wf(),
            final(self)@ == old(self)@.remove_keys(owned_names(old(self)@, owner_id@)),
            final(self).next_seq() == old(self).next_seq(),
            forall|i: int, j: int|
                0 <= i < j < r@.len() ==> text_before(
                    (#[trigger] r@[i]).0@,
                    (#[trigger] r@[j]).0@,
                    0,
                ),
            forall|i: int|
                0 <= i < r@.len() ==> {
                    &&& owned_names(old(self)@, owner_id@).contains((#[trigger] r@[i]).0@)
                    &&& r@[i].1 is Ok
                    &&& may_report(reader, old(self)@[r@[i].0@], now, r@[i].1->Ok_0@)
                },
            forall|id: Seq<char>| #[trigger]
                owned_names(old(self)@, owner_id@).contains(id) ==> exists|i: int|
                    0 <= i < r@.len() && (#[trigger] r@[i]).0@ == id,
    {
        let ids = self.owned_by(owner_id);
        let ghost names = texts(ids@);
        let ghost before = self@;
        let ghost seq = self.next_seq();
        let mut r: Vec<(String, Result<MonitorStopOut, String>)> = Vec::new();
        assert(names.len() == ids@.len());
        assert(before.remove_keys(names.take(0).to_set()) =~= before);
        let mut i: usize = 0;
        while i < ids.len()
            invariant
                i <= ids@.len(),
                names == texts(ids@),
                names.len() == ids@.len(),
                in_order(names),
                self.wf(),
                self.next_seq() == seq,
                forall|id: Seq<char>| #[trigger]
                    names.contains(id) <==> before.contains_key(id) && before[id].owner_id
                        == owner_id@,
                forall|id: Seq<char>| #[trigger]
                    before.contains_key(id) && before[id].owner_id == owner_id@
                        ==> before[id].totals_fit(),
                self@ == before.remove_keys(names.take(i as int).to_set()),
                r@.len() == i,
                forall|k: int| 0 <= k < i ==> (#[trigger] r@[k]).0@ == names[k],
                forall|k: int|
                    0 <= k < i ==> (#[trigger] r@[k]).1 is Ok && may_report(
                        reader,
                        before[names[k]],
                        now,
                        r@[k].1->Ok_0@,
                    ),
            decreases ids@.len() - i,
        {
            let ghost name = names[i as int];
            proof {
                assert(ids@[i as int]@ == name);
                assert(names.contains(name));
                if names.take(i as int).contains(name) {
                    let k = choose|k: int| 0 <= k < i && names.take(i as int)[k] == name;
                    assert(text_before(names[k], names[i as int], 0));
                    lemma_text_before_irreflexive(names[k], names[i as int], 0);
                }
                assert(names.take(i + 1) =~= names.take(i as int).push(name));
                assert forall|x: Seq<char>| #[trigger] names.take(i + 1).contains(x) <==> names.take(
                    i as int,
                ).contains(x) || x == name by {
                    if names.take(i as int).contains(x) {
                        let k = choose|k: int| 0 <= k < i && names.take(i as int)[k] == x;
                        assert(names.take(i + 1)[k] == x);
                    }
                    if x == name {
                        assert(names.take(i + 1)[i as int] == x);
                    }
                }
                assert(before.remove_keys(names.take(i + 1).to_set()) =~= self@.remove(name));
            }
            let out = self.stop(reader, ids[i].as_str(), now);
            r.push((ids[i].clone(), out));
            i += 1;
        }
        proof {
            assert(names.take(names.len() as int) =~= names);
            let gone = owned_names(before, owner_id@);
            assert forall|id: Seq<char>| names.to_set().contains(id) <==> #[trigger] gone.contains(id)
                by {
                assert(names.contains(id) <==> before.contains_key(id) && before[id].owner_id
                    == owner_id@);
            }
            assert(names.to_set() =~= gone);
            assert forall|k: int| 0 <= k < r@.len() implies gone.contains((#[trigger] r@[k]).0@) by {
                assert(names.contains(names[k]));
            }
            assert forall|id: Seq<char>| #[trigger] gone.contains(id) implies exists|k: int|
                0 <= k < r@.len() && (#[trigger] r@[k]).0@ == id by {
                assert(names.contains(id));
                let k = choose|k: int| 0 <= k < names.len() && names[k] == id;
                assert(r@[k].0@ == id);
            }
        }
        r
    }

    /// Takes out every monitor that has lived as long as it may, and says their names.
    pub fn sweep(&mut self, now: u64, legacy_max_age: u64) -> (r: Vec<String>)
        requires
            old(self).wf(),
        ensures
            final(self).wf(),
            final(self)@ == old(self)@.remove_keys(
                expired_names(old(self)@, now, legacy_max_age),
            ),
            final(self).next_seq() == old(self).next_seq(),
            texts(r@).to_set() == expired_names(old(self)@, now, legacy_max_age),
    {
        broadcast use group_views;

        let ghost before = self@;
        let ghost gone = expired_names(before, now, legacy_max_age);
        let mut r: Vec<String> = Vec::new();
        let mut i: usize = 0;
        assert(before.remove_keys(texts(r@).to_set()) =~= before);
        while i < self.running.len()
            invariant
                i <= self.running@.len(),
                self.wf(),
                gone == expired_names(before, now, legacy_max_age),
                self@ == before.remove_keys(texts(r@).to_set()),
                self.next_seq() == old(self).next_seq(),
                forall|id: Seq<char>| #[trigger] texts(r@).contains(id) ==> gone.contains(id),
                forall|k: int|
                    0 <= k < i ==> !(#[trigger] self.running@[k]).entry@.expired(
                        now,
                        legacy_max_age,
                    ),
            decreases self.running@.len() - i,
        {
            proof {
                lemma_table(self.running@, i as int);
            }
            if self.running[i].entry.is_expired(now, legacy_max_age) {
                let ghost all = self.running@;
                let ghost name = all[i as int].id@;
                let ghost listed = texts(r@);
                proof {
                    lemma_table_remove(all, i as int);
                }
                let x = self.running.remove(i);
                r.push(x.id);
                proof {
                    assert(texts(r@) =~= listed.push(name));
                    assert forall|id: Seq<char>| #[trigger]
                        texts(r@).contains(id) <==> listed.contains(id) || id == name by {
                        if listed.contains(id) {
                            let k = choose|k: int| 0 <= k < listed.len() && listed[k] == id;
                            assert(texts(r@)[k] == id);
                        }
                        if id == name {
                            assert(texts(r@)[listed.len() as int] == id);
                        }
                    }
                    assert(before.remove_keys(texts(r@).to_set()) =~= self@);
                }
            } else {
                i += 1;
            }
        }
        proof {
            assert forall|id: Seq<char>| #[trigger] gone.contains(id) implies texts(r@).contains(id) by {
                if !texts(r@).contains(id) {
                    assert(self@.contains_key(id));
                    assert(holds(self.running@, id));
                    let p = place(self.running@, id);
                    assert(0 <= p < self.running@.len() && self.running@[p].id@ == id);
                    lemma_table(self.running@, p);
                }
            }
            assert(texts(r@).to_set() =~= gone);
        }
        r
    }
}

/// A list without repetitions has as many names as its map.
proof fn lemma_table_size(s: Seq<Registered>)
    requires
        distinct_ids(s),
    ensures
        table(s).dom().len() == s.len(),
        table(s).dom().finite(),
    decreases s.len(),
{
    if s.len() == 0 {
        assert(table(s).dom() =~= Set::<Seq<char>>::empty());
    } else {
        let last = s.len() - 1;
        lemma_table(s, last);
        lemma_table_remove(s, last);
        lemma_table_size(s.remove(last));
        assert(table(s).dom() =~= table(s.remove(last)).dom().insert(s[last].id@));
    }
}

/// The names of an owner's monitors.
pub open spec fn owned_names(all: Map<Seq<char>, MonEntryView>, owner_id: Seq<char>) -> Set<
    Seq<char>,
> {
    Set::new(|id: Seq<char>| all.contains_key(id) && all[id].owner_id == owner_id)
}

/// The names of the monitors that have lived as long as they may.
pub open spec fn expired_names(
    all: Map<Seq<char>, MonEntryView>,
    now: u64,
    legacy_max_age: u64,
) -> Set<Seq<char>> {
    Set::new(|id: Seq<char>| all.contains_key(id) && all[id].expired(now, legacy_max_age))
}

/// Whether each text of a list comes before those that follow.
pub open spec fn in_order(list: Seq<Seq<char>>) -> bool {
    forall|i: int, j: int|
        0 <= i < j < list.len() ==> text_before(#[trigger] list[i], #[trigger] list[j], 0)
}

/// Puts a text in its place in an ordered list that does not hold it.
pub fn place_text(list: &mut Vec<String>, text: String)
    requires
        in_order(texts(old(list)@)),
        !texts(old(list)@).contains(text@),
    ensures
        in_order(texts(final(list)@)),
        forall|x: Seq<char>| #[trigger]
            texts(final(list)@).contains(x) <==> texts(old(list)@).contains(x) || x == text@,
{
    broadcast use group_views;

    let ghost before = texts(list@);
    let ghost t = text@;
    assert(before.len() == list@.len());
    let mut k: usize = list.len();
    while k > 0 && is_text_before(text.as_str(), list[k - 1].as_str())
        invariant
            k <= list@.len(),
            before == texts(list@),
            before.len() == list@.len(),
            forall|i: int| k <= i < before.len() ==> text_before(text@, #[trigger] before[i], 0),
        decreases k,
    {
        assert(before[k - 1] == list@[k - 1]@);
        k -= 1;
    }
    proof {
        if k > 0 {
            assert(before[k - 1] == list@[k - 1]@);
            lemma_text_total(t, before[k - 1], 0);
            if t == before[k - 1] {
                assert(before.contains(t));
            }
            assert(text_before(before[k - 1], t, 0));
            assert forall|i: int| 0 <= i < k implies text_before(#[trigger] before[i], t, 0) by {
                if i < k - 1 {
                    lemma_text_before_transitive(before[i], before[k - 1], t, 0);
                }
            }
        }
    }
    list.insert(k, text);
    proof {
        let after = texts(list@);
        assert(after =~= before.insert(k as int, t));
        assert forall|i: int, j: int| 0 <= i < j < after.len() implies text_before(
            #[trigger] after[i],
            #[trigger] after[j],
            0,
        ) by {
            let a = if i < k {
                i
            } else {
                i - 1
            };
            let b = if j < k {
                j
            } else {
                j - 1
            };
            if i != k && j != k {
                assert(after[i] == before[a] && after[j] == before[b]);
            } else if i == k {
                assert(after[j] == before[j - 1]);
            } else {
                assert(after[i] == before[i]);
            }
        }
        assert forall|x: Seq<char>| #[trigger] after.contains(x) <==> before.contains(x) || x == t by {
            if before.contains(x) {
                let i = choose|i: int| 0 <= i < before.len() && before[i] == x;
                if i < k {
                    assert(after[i] == x);
                } else {
                    assert(after[i + 1] == x);
                }
            }
            if x == t {
                assert(after[k as int] == x);
            }
            if after.contains(x) && x != t {
                let i = choose|i: int| 0 <= i < after.len() && after[i] == x;
                if i < k {
                    assert(before[i] == x);
                } else {
                    assert(before[i - 1] == x);
                }
            }
        }
    }
}

/// Monitors that follow one another have different names, until the numbers come round.
pub proof fn lemma_names_differ(a: u64, b: u64)
    requires
        a != b,
    ensures
        monitor_name(a) != monitor_name(b),
{
    if monitor_name(a) == monitor_name(b) {
        reveal_strlit("mon");
        assert(monitor_name(a).skip(3) =~= decimal(a as nat));
        assert(monitor_name(b).skip(3) =~= decimal(b as nat));
        crate::sessions::lemma_decimal_injective(a as nat, b as nat);
    }
}

/// A sweep leaves alone every monitor whose own lease still runs, whatever the age that the sweep
/// grants to those without one.
pub proof fn lemma_sweep_keeps_leases(
    all: Map<Seq<char>, MonEntryView>,
    id: Seq<char>,
    now: u64,
    legacy_max_age: u64,
)
    requires
        all.contains_key(id),
        all[id].lease_secs > 0,
        since(now, all[id].sampling.t0) < all[id].lease_secs * 1_000_000_000,
    ensures
        all.remove_keys(expired_names(all, now, legacy_max_age)).contains_key(id),
        all.remove_keys(expired_names(all, now, legacy_max_age))[id] == all[id],
{
}

/// Stopping one owner's monitors leaves those of the others alone.
pub proof fn lemma_stop_owner_spares_others(
    all: Map<Seq<char>, MonEntryView>,
    id: Seq<char>,
    owner_id: Seq<char>,
)
    requires
        all.contains_key(id),
        all[id].owner_id != owner_id,
    ensures
        all.remove_keys(owned_names(all, owner_id)).contains_key(id),
        all.remove_keys(owned_names(all, owner_id))[id] == all[id],
{
}

} // verus!
