//! The console's live rate curves: bounded buffers, sessions and their end.
use vstd::prelude::*;
use vstd::string::*;
use std::collections::VecDeque;
use crate::number::Double;
use crate::text::{
    begins, blank, cat2, cat6, decimal, decimal_text, digit, digit_char, group_views, owned, same,
    trim, trimmed, views,
};

verus! {

/// How many points a session keeps.
pub const MONITOR_MAX_POINTS: usize = 7200;

/// How many sessions there may be.
pub const MONITOR_MAX_SESSIONS: usize = 8;

/// After how many nanoseconds without a page a session ends.
pub const MONITOR_IDLE_NANOS: u64 = 90_000_000_000;

/// For how many seconds an agent keeps a session that nobody asks for.
pub const UI_MONITOR_LEASE_SECS: u64 = 180;

// ---------------------------------------------------------------------------
// Buffers
// ---------------------------------------------------------------------------

/// One point of a curve.
#[derive(Clone, Copy, Debug, PartialEq, Eq, Structural)]
pub struct MonitorPoint {
    /// Seconds since the session started.
    pub t: Double,
    pub rx_mbps: Double,
    pub tx_mbps: Double,
}

/// The points of a session and what is known of its state.
#[derive(Debug)]
pub struct MonitorData {
    pub points: VecDeque<MonitorPoint>,
    /// How many points were dropped: the number of the first that is left.
    pub dropped: usize,
    pub error: Option<String>,
    pub running: bool,
    /// When the page last asked, in nanoseconds; `None` where it never did.
    pub last_poll: Option<u64>,
}

/// How many of `n` points are too many.
pub open spec fn excess(n: nat) -> int {
    if n > MONITOR_MAX_POINTS {
        n - MONITOR_MAX_POINTS
    } else {
        0
    }
}

/// The index among those left of the point with number `from`, or of the first that is left.
pub open spec fn cursor_index(from: usize, dropped: usize) -> int {
    if from > dropped {
        from - dropped
    } else {
        0
    }
}

impl MonitorData {
    /// A session that has just started.
    pub fn new() -> (r: MonitorData)
        ensures
            r.points@.len() == 0,
            r.dropped == 0,
            r.error is None,
            r.running,
            r.last_poll is None,
    {
        MonitorData {
            points: VecDeque::new(),
            dropped: 0,
            error: None,
            running: true,
            last_poll: None,
        }
    }

    /// The number of points that there have been.
    pub open spec fn total(self) -> int {
        self.dropped + self.points@.len()
    }

    /// Whether no more points are kept than may be.
    pub open spec fn bounded(self) -> bool {
        self.points@.len() <= MONITOR_MAX_POINTS
    }

    /// Adds a point, and drops the oldest ones that are too many.
    pub fn push(&mut self, point: MonitorPoint)
        requires
            old(self).dropped + old(self).points@.len() < usize::MAX,
        ensures
            final(self).points@ == old(self).points@.push(point).skip(
                excess(old(self).points@.len() + 1),
            ),
            final(self).dropped == old(self).dropped + excess(old(self).points@.len() + 1),
            final(self).bounded(),
            final(self).total() == old(self).total() + 1,
            final(self).error == old(self).error,
            final(self).running == old(self).running,
            final(self).last_poll == old(self).last_poll,
    {
        self.points.push_back(point);
        let ghost all = self.points@;
        let ghost first = self.dropped;
        assert(all.skip(0) =~= all);
        while self.points.len() > MONITOR_MAX_POINTS
            invariant
                first + all.len() <= usize::MAX,
                self.dropped >= first,
                self.dropped - first <= excess(all.len()),
                self.points@ == all.skip(self.dropped - first),
                self.error == old(self).error,
                self.running == old(self).running,
                self.last_poll == old(self).last_poll,
            decreases self.points@.len(),
        {
            let ghost gone = self.dropped - first;
            let _ = self.points.pop_front();
            self.dropped = self.dropped + 1;
            assert(all.skip(gone).skip(1) =~= all.skip(gone + 1));
            assert(self.points@ =~= all.skip(gone + 1));
        }
    }

    /// The points from number `from` on that are left.
    pub fn points_from(&self, from: usize) -> (r: Vec<MonitorPoint>)
        ensures
            r@ == if cursor_index(from, self.dropped) <= self.points@.len() {
                self.points@.skip(cursor_index(from, self.dropped))
            } else {
                Seq::empty()
            },
    {
        let start: usize = if from > self.dropped {
            from - self.dropped
        } else {
            0
        };
        let mut r: Vec<MonitorPoint> = Vec::new();
        if start > self.points.len() {
            return r;
        }
        let mut i: usize = start;
        let ghost rest = self.points@.skip(start as int);
        while i < self.points.len()
            invariant
                start <= i <= self.points@.len(),
                rest == self.points@.skip(start as int),
                r@ == rest.take(i - start),
            decreases self.points@.len() - i,
        {
            r.push(self.points[i]);
            assert(rest.take(i - start).push(rest[i - start]) =~= rest.take(i - start + 1));
            i += 1;
        }
        assert(rest.take(i - start) =~= rest);
        r
    }
}

/// A point keeps its number while it is kept: adding points never moves what a page has yet to see.
pub proof fn lemma_numbers_stay(points: Seq<MonitorPoint>, dropped: int, point: MonitorPoint, n: int)
    requires
        dropped >= 0,
        dropped + excess(points.len() + 1) <= n < dropped + points.len(),
    ensures
        ({
            let after = points.push(point).skip(excess(points.len() + 1));
            after[n - (dropped + excess(points.len() + 1))] == points[n - dropped]
        }),
{
}

impl MonitorData {
    /// Takes what the agent says of its latest sample. One that was seen before is known by its time
    /// and adds no point; says the time of the latest that was seen.
    pub fn take_agent_sample(&mut self, last_elapsed_ms: u64, sample: Option<(u64, MonitorPoint)>) -> (r:
        u64)
        requires
            old(self).dropped + old(self).points@.len() < usize::MAX,
        ensures
            final(self).error is None,
            final(self).running == old(self).running,
            final(self).last_poll == old(self).last_poll,
            match sample {
                Some((elapsed_ms, point)) => {
                    &&& r == elapsed_ms
                    &&& elapsed_ms != last_elapsed_ms ==> final(self).points@ == old(
                        self,
                    ).points@.push(point).skip(excess(old(self).points@.len() + 1))
                        && final(self).dropped == old(self).dropped + excess(
                        old(self).points@.len() + 1,
                    )
                    &&& elapsed_ms == last_elapsed_ms ==> final(self).points@ == old(self).points@
                        && final(self).dropped == old(self).dropped
                },
                None => r == last_elapsed_ms && final(self).points@ == old(self).points@
                    && final(self).dropped == old(self).dropped,
            },
    {
        self.error = None;
        match sample {
            Some((elapsed_ms, point)) => {
                if elapsed_ms != last_elapsed_ms {
                    self.push(point);
                }
                elapsed_ms
            },
            None => last_elapsed_ms,
        }
    }

    /// Takes a point of the host's own counters.
    pub fn take_local_point(&mut self, point: MonitorPoint)
        requires
            old(self).dropped + old(self).points@.len() < usize::MAX,
        ensures
            final(self).error is None,
            final(self).running == old(self).running,
            final(self).last_poll == old(self).last_poll,
            final(self).points@ == old(self).points@.push(point).skip(
                excess(old(self).points@.len() + 1),
            ),
            final(self).dropped == old(self).dropped + excess(old(self).points@.len() + 1),
    {
        self.error = None;
        self.push(point);
    }

    /// Notes that a sample could not be taken; the session goes on where `ends` is false.
    pub fn take_failure(&mut self, what: &str, error: &str, ends: bool)
        ensures
            final(self).error is Some,
            final(self).error->0@ == what@ + error@,
            final(self).running == (old(self).running && !ends),
            final(self).points == old(self).points,
            final(self).dropped == old(self).dropped,
            final(self).last_poll == old(self).last_poll,
    {
        self.error = Some(cat2(what, error));
        if ends {
            self.running = false;
        }
    }
}

/// By how much a counter rose; one that went back counts as unchanged.
pub fn rise(before: u64, now: u64) -> (r: u64)
    ensures
        r == if now > before {
            now - before
        } else {
            0
        },
{
    if now > before {
        now - before
    } else {
        0
    }
}

// ---------------------------------------------------------------------------
// Sessions
// ---------------------------------------------------------------------------

/// One curve of one page.
#[derive(Debug)]
pub struct MonitorSession {
    pub id: String,
    pub side: String,
    pub iface: String,
    pub data: MonitorData,
    /// When the session started, in nanoseconds.
    pub started: u64,
}

/// Whether a page has been away for too long: since it last asked, or since the session started.
pub open spec fn abandoned(last_poll: Option<u64>, started: u64, now: u64) -> bool {
    let seen = match last_poll {
        Some(at) => at,
        None => started,
    };
    now > seen && now - seen > MONITOR_IDLE_NANOS
}

/// Whether a page has been away for too long.
pub fn monitor_abandoned(last_poll: Option<u64>, started: u64, now: u64) -> (r: bool)
    ensures
        r == abandoned(last_poll, started, now),
{
    let seen: u64 = match last_poll {
        Some(at) => at,
        None => started,
    };
    now > seen && now - seen > MONITOR_IDLE_NANOS
}

/// Whether a session is kept: it runs, or its page may still read how it ended.
pub open spec fn session_kept(session: MonitorSession, now: u64) -> bool {
    session.data.running || !abandoned(session.data.last_poll, session.started, now)
}

/// Those of the first `n` sessions that are kept.
pub open spec fn kept_sessions_to(sessions: Seq<MonitorSession>, now: u64, n: int) -> Seq<
    MonitorSession,
>
    decreases n,
{
    if n <= 0 {
        Seq::empty()
    } else if session_kept(sessions[n - 1], now) {
        kept_sessions_to(sessions, now, n - 1).push(sessions[n - 1])
    } else {
        kept_sessions_to(sessions, now, n - 1)
    }
}

/// Drops the sessions that have ended and whose pages are gone.
pub fn reap_dead_monitors(monitors: &mut Vec<MonitorSession>, now: u64)
    ensures
        final(monitors)@ == kept_sessions_to(
            old(monitors)@,
            now,
            old(monitors)@.len() as int,
        ),
{
    let ghost before = monitors@;
    let mut all: Vec<MonitorSession> = Vec::new();
    core::mem::swap(monitors, &mut all);
    for session in it: all
        invariant
            it.seq() == before,
            monitors@ == kept_sessions_to(before, now, it.index@ as int),
    {
        assert(session == before[it.index@ as int]);
        if session.data.running || !monitor_abandoned(
            session.data.last_poll,
            session.started,
            now,
        ) {
            monitors.push(session);
        }
    }
}

/// A session that runs is never dropped.
pub proof fn lemma_running_sessions_stay(sessions: Seq<MonitorSession>, now: u64, n: int, i: int)
    requires
        0 <= i < n <= sessions.len(),
        sessions[i].data.running,
    ensures
        kept_sessions_to(sessions, now, n).contains(sessions[i]),
    decreases n,
{
    let before = kept_sessions_to(sessions, now, n - 1);
    let after = kept_sessions_to(sessions, now, n);
    if i == n - 1 {
        assert(after[before.len() as int] == sessions[i]);
    } else {
        lemma_running_sessions_stay(sessions, now, n - 1, i);
        let k = choose|k: int| 0 <= k < before.len() && before[k] == sessions[i];
        assert(after[k] == sessions[i]);
    }
}

/// The sampling interval of a session: a second where none is asked for, and within what the watched
/// side can do.
pub open spec fn interval_for(side: Seq<char>, requested: u64) -> u64 {
    let max = if side == "agent"@ {
        5_000u64
    } else {
        60_000u64
    };
    if requested == 0 {
        1_000
    } else if requested < 200 {
        200
    } else if requested > max {
        max
    } else {
        requested
    }
}

/// The sampling interval of a session.
pub fn monitor_interval_ms(side: &str, requested: u64) -> (r: u64)
    ensures
        r == interval_for(side@, requested),
{
    let max: u64 = if same(side, "agent") {
        5_000
    } else {
        60_000
    };
    if requested == 0 {
        1_000
    } else if requested < 200 {
        200
    } else if requested > max {
        max
    } else {
        requested
    }
}

/// A request for a session.
#[derive(Clone, Debug)]
pub struct MonitorStartUiReq {
    /// `master` or `agent`.
    pub side: String,
    pub iface: String,
    pub interval_ms: u64,
}

/// The complaint about a request for a session, with `sessions` of them there.
pub open spec fn start_told(req: MonitorStartUiReq, sessions: nat, agent_host: Seq<char>) -> Result<
    (),
    Seq<char>,
> {
    if blank(req.iface@) {
        Err("先选一块网卡"@)
    } else if sessions >= MONITOR_MAX_SESSIONS {
        Err("同时最多 8 路监控；先停掉一路再开"@)
    } else if req.side@ == "master"@ {
        Ok(())
    } else if req.side@ == "agent"@ {
        if agent_host.len() == 0 {
            Err("还没连上辅测机，先点「连接」"@)
        } else {
            Ok(())
        }
    } else {
        Err("未知的监控端: "@ + req.side@)
    }
}

/// Checks a request for a session, and gives its interval. The sessions that have ended are dropped
/// first, so that they do not count, unless no interface was chosen.
pub fn admit_monitor(
    monitors: &mut Vec<MonitorSession>,
    req: &MonitorStartUiReq,
    agent_host: &str,
    now: u64,
) -> (r: Result<u64, String>)
    ensures
        ({
            let left = kept_sessions_to(old(monitors)@, now, old(monitors)@.len() as int);
            &&& final(monitors)@ == if blank(req.iface@) {
                old(monitors)@
            } else {
                left
            }
            &&& match r {
                Ok(interval) => start_told(*req, left.len(), agent_host@) is Ok && interval
                    == interval_for(req.side@, req.interval_ms),
                Err(e) => start_told(*req, left.len(), agent_host@) == Err::<(), Seq<char>>(e@),
            }
        }),
{
    if trim(req.iface.as_str()).is_empty() {
        return Err(owned("先选一块网卡"));
    }
    let interval: u64 = monitor_interval_ms(req.side.as_str(), req.interval_ms);
    reap_dead_monitors(monitors, now);
    if monitors.len() >= MONITOR_MAX_SESSIONS {
        return Err(owned("同时最多 8 路监控；先停掉一路再开"));
    }
    if same(req.side.as_str(), "master") {
        return Ok(interval);
    }
    if same(req.side.as_str(), "agent") {
        if agent_host.is_empty() {
            return Err(owned("还没连上辅测机，先点「连接」"));
        }
        return Ok(interval);
    }
    Err(cat2("未知的监控端: ", req.side.as_str()))
}

/// The index of the first session with that id from `i` on; the length where there is none.
pub open spec fn session_index(sessions: Seq<MonitorSession>, id: Seq<char>, i: int) -> int
    decreases sessions.len() - i,
{
    if i < 0 || i >= sessions.len() {
        sessions.len() as int
    } else if sessions[i].id@ == id {
        i
    } else {
        session_index(sessions, id, i + 1)
    }
}

/// The index of the first session with that id; the length where there is none.
pub fn find_session(sessions: &Vec<MonitorSession>, id: &str) -> (r: usize)
    ensures
        r == session_index(sessions@, id@, 0),
        r <= sessions@.len(),
{
    let mut i: usize = 0;
    while i < sessions.len()
        invariant
            i <= sessions@.len(),
            session_index(sessions@, id@, 0) == session_index(sessions@, id@, i as int),
        decreases sessions@.len() - i,
    {
        if same(sessions[i].id.as_str(), id) {
            return i;
        }
        i += 1;
    }
    i
}

/// From which point on a page wants to see a session.
#[derive(Clone, Debug)]
pub struct MonitorCursor {
    pub session: String,
    pub from: usize,
}

/// What a page gets of a session.
#[derive(Debug)]
pub struct MonitorSeriesOut {
    pub session: String,
    pub side: String,
    pub iface: String,
    /// From which point on to ask next.
    pub from: usize,
    pub points: Vec<MonitorPoint>,
    pub running: bool,
    pub error: String,
}

/// What a page gets of a session.
pub ghost struct SeriesView {
    pub session: Seq<char>,
    pub side: Seq<char>,
    pub iface: Seq<char>,
    pub from: int,
    pub points: Seq<MonitorPoint>,
    pub running: bool,
    pub error: Seq<char>,
}

impl View for MonitorSeriesOut {
    type V = SeriesView;

    open spec fn view(&self) -> SeriesView {
        SeriesView {
            session: self.session@,
            side: self.side@,
            iface: self.iface@,
            from: self.from as int,
            points: self.points@,
            running: self.running,
            error: self.error@,
        }
    }
}

/// What a page gets of the session that a cursor names: its points from there on, or that it has
/// ended.
pub open spec fn series_for(sessions: Seq<MonitorSession>, cursor: MonitorCursor) -> SeriesView {
    let at = session_index(sessions, cursor.session@, 0);
    if at >= sessions.len() {
        SeriesView {
            session: cursor.session@,
            side: Seq::empty(),
            iface: Seq::empty(),
            from: cursor.from as int,
            points: Seq::empty(),
            running: false,
            error: "监控会话已结束"@,
        }
    } else {
        let session = sessions[at];
        let start = cursor_index(cursor.from, session.data.dropped);
        SeriesView {
            session: cursor.session@,
            side: session.side@,
            iface: session.iface@,
            from: session.data.total(),
            points: if start <= session.data.points@.len() {
                session.data.points@.skip(start)
            } else {
                Seq::empty()
            },
            running: session.data.running,
            error: match session.data.error {
                Some(e) => e@,
                None => Seq::empty(),
            },
        }
    }
}

/// What a page gets of the session that a cursor names.
pub fn read_series(sessions: &Vec<MonitorSession>, cursor: &MonitorCursor) -> (r: MonitorSeriesOut)
    requires
        forall|i: int| 0 <= i < sessions@.len() ==> (#[trigger] sessions@[i]).data.total() <= usize::MAX,
    ensures
        r@ == series_for(sessions@, *cursor),
{
    let at: usize = find_session(sessions, cursor.session.as_str());
    if at >= sessions.len() {
        return MonitorSeriesOut {
            session: cursor.session.clone(),
            side: String::new(),
            iface: String::new(),
            from: cursor.from,
            points: Vec::new(),
            running: false,
            error: owned("监控会话已结束"),
        };
    }
    let session = &sessions[at];
    let error = match &session.data.error {
        Some(e) => e.clone(),
        None => String::new(),
    };
    MonitorSeriesOut {
        session: cursor.session.clone(),
        side: session.side.clone(),
        iface: session.iface.clone(),
        from: session.data.dropped + session.data.points.len(),
        points: session.data.points_from(cursor.from),
        running: session.data.running,
        error,
    }
}

/// What a page that asks again from where it was told gets: only what is new.
pub proof fn lemma_cursor_skips_what_was_seen(session: MonitorSession)
    requires
        session.data.total() <= usize::MAX,
    ensures
        ({
            let next = session.data.total() as usize;
            cursor_index(next, session.data.dropped) == session.data.points@.len()
        }),
{
}

/// A session whose page has just asked.
pub open spec fn touched(session: MonitorSession, now: u64) -> MonitorSession {
    MonitorSession {
        data: MonitorData { last_poll: Some(now), ..session.data },
        ..session
    }
}

/// The sessions after the first `n` cursors: those that they name have been asked for.
pub open spec fn touched_to(
    sessions: Seq<MonitorSession>,
    cursors: Seq<MonitorCursor>,
    now: u64,
    n: int,
) -> Seq<MonitorSession>
    decreases n,
{
    if n <= 0 {
        sessions
    } else {
        let before = touched_to(sessions, cursors, now, n - 1);
        let at = session_index(before, cursors[n - 1].session@, 0);
        if at < before.len() {
            before.update(at, touched(before[at], now))
        } else {
            before
        }
    }
}

/// What a page gets for the first `n` cursors.
pub open spec fn series_to(
    sessions: Seq<MonitorSession>,
    cursors: Seq<MonitorCursor>,
    now: u64,
    n: int,
) -> Seq<SeriesView>
    decreases n,
{
    if n <= 0 {
        Seq::empty()
    } else {
        series_to(sessions, cursors, now, n - 1).push(
            series_for(touched_to(sessions, cursors, now, n - 1), cursors[n - 1]),
        )
    }
}

/// Whether the numbers of points of all sessions fit.
pub open spec fn counts_fit(sessions: Seq<MonitorSession>) -> bool {
    forall|i: int| 0 <= i < sessions.len() ==> (#[trigger] sessions[i]).data.total() <= usize::MAX
}

proof fn lemma_kept_counts_fit(sessions: Seq<MonitorSession>, now: u64, n: int)
    requires
        counts_fit(sessions),
        0 <= n <= sessions.len(),
    ensures
        counts_fit(kept_sessions_to(sessions, now, n)),
    decreases n,
{
    if n > 0 {
        lemma_kept_counts_fit(sessions, now, n - 1);
    }
}

/// What a page gets of the sessions that it asks for. One that has ended does not spoil the others.
pub fn poll_monitors(
    monitors: &mut Vec<MonitorSession>,
    cursors: &Vec<MonitorCursor>,
    now: u64,
) -> (r: Result<Vec<MonitorSeriesOut>, String>)
    requires
        counts_fit(old(monitors)@),
    ensures
        cursors@.len() > MONITOR_MAX_SESSIONS ==> {
            &&& r is Err
            &&& r->Err_0@ == "一次最多问 8 路监控"@
            &&& final(monitors)@ == old(monitors)@
        },
        cursors@.len() <= MONITOR_MAX_SESSIONS ==> {
            let left = kept_sessions_to(old(monitors)@, now, old(monitors)@.len() as int);
            let n = cursors@.len() as int;
            &&& r is Ok
            &&& views(r->Ok_0@) == series_to(left, cursors@, now, n)
            &&& final(monitors)@ == touched_to(left, cursors@, now, n)
        },
{
    broadcast use group_views;

    if cursors.len() > MONITOR_MAX_SESSIONS {
        return Err(owned("一次最多问 8 路监控"));
    }
    proof {
        lemma_kept_counts_fit(monitors@, now, monitors@.len() as int);
    }
    reap_dead_monitors(monitors, now);
    let ghost left = monitors@;
    let mut out: Vec<MonitorSeriesOut> = Vec::new();
    let mut i: usize = 0;
    while i < cursors.len()
        invariant
            i <= cursors@.len(),
            counts_fit(monitors@),
            monitors@ == touched_to(left, cursors@, now, i as int),
            views(out@) == series_to(left, cursors@, now, i as int),
        decreases cursors@.len() - i,
    {
        let series = read_series(monitors, &cursors[i]);
        out.push(series);
        let at: usize = find_session(monitors, cursors[i].session.as_str());
        if at < monitors.len() {
            let ghost before = monitors@;
            monitors[at].data.last_poll = Some(now);
            assert(monitors@ =~= before.update(at as int, touched(before[at as int], now)));
        }
        i += 1;
    }
    Ok(out)
}

/// Ends a session, and tells whether it was there.
pub fn stop_monitor(monitors: &mut Vec<MonitorSession>, id: &str) -> (r: Option<MonitorSession>)
    ensures
        ({
            let at = session_index(old(monitors)@, id@, 0);
            match r {
                Some(session) => at < old(monitors)@.len() && session == old(monitors)@[at]
                    && final(monitors)@ == old(monitors)@.remove(at),
                None => at >= old(monitors)@.len() && final(monitors)@ == old(monitors)@,
            }
        }),
{
    let at: usize = find_session(monitors, id);
    if at < monitors.len() {
        Some(monitors.remove(at))
    } else {
        None
    }
}

/// Ends all sessions.
pub fn stop_all_monitors(monitors: &mut Vec<MonitorSession>) -> (r: Vec<MonitorSession>)
    ensures
        final(monitors)@.len() == 0,
        r@ == old(monitors)@,
{
    let mut all: Vec<MonitorSession> = Vec::new();
    core::mem::swap(monitors, &mut all);
    all
}

// ---------------------------------------------------------------------------
// Session ids
// ---------------------------------------------------------------------------

/// What session ids are made from: they differ however many are made in one millisecond.
#[derive(Debug)]
pub struct SessionIds {
    pub next: u64,
}

/// The id of a session: process, time and a number of its own.
pub open spec fn session_id(pid: u32, millis: u64, number: u64) -> Seq<char> {
    "mon-"@ + decimal(pid as nat) + "-"@ + decimal(millis as nat) + "-"@ + decimal(number as nat)
}

impl SessionIds {
    /// A new session id.
    pub fn next_monitor_session_id(&mut self, pid: u32, millis: u64) -> (r: String)
        requires
            old(self).next < u64::MAX,
        ensures
            r@ == session_id(pid, millis, old(self).next),
            final(self).next == old(self).next + 1,
    {
        let number: u64 = self.next;
        self.next = number + 1;
        let a = decimal_text(pid as u64);
        let b = decimal_text(millis);
        let c = decimal_text(number);
        cat6("mon-", a.as_str(), "-", b.as_str(), "-", c.as_str())
    }
}

/// Decimals hold nothing but digits.
proof fn lemma_decimal_digits(n: nat)
    ensures
        decimal(n).len() > 0,
        forall|i: int| 0 <= i < decimal(n).len() ==> digit(#[trigger] decimal(n)[i]),
    decreases n,
{
    if n >= 10 {
        lemma_decimal_digits(n / 10);
    }
}

/// Decimals are equal only for equal numbers.
pub proof fn lemma_decimal_injective(a: nat, b: nat)
    requires
        decimal(a) == decimal(b),
    ensures
        a == b,
    decreases a,
{
    let (x, y) = (decimal(a), decimal(b));
    if a < 10 {
        if b >= 10 {
            lemma_decimal_digits(b / 10);
            assert(y.len() >= 2);
        } else {
            assert(x[0] == digit_char(a) && y[0] == digit_char(b));
        }
    } else if b < 10 {
        lemma_decimal_digits(a / 10);
        assert(x.len() >= 2);
    } else {
        assert(x.last() == digit_char(a % 10) && y.last() == digit_char(b % 10));
        assert(x.drop_last() =~= decimal(a / 10));
        assert(y.drop_last() =~= decimal(b / 10));
        lemma_decimal_injective(a / 10, b / 10);
    }
}

/// Sessions with different numbers have different ids, whatever process and time they bear.
pub proof fn lemma_session_ids_differ(
    pid: u32,
    other_pid: u32,
    millis: u64,
    other_millis: u64,
    number: u64,
    other: u64,
)
    requires
        session_id(pid, millis, number) == session_id(other_pid, other_millis, other),
    ensures
        number == other,
{
    let x = session_id(pid, millis, number);
    let (a, b) = (decimal(number as nat), decimal(other as nat));
    reveal_strlit("-");
    lemma_decimal_digits(number as nat);
    lemma_decimal_digits(other as nat);
    let (i, j) = (x.len() - a.len() - 1, x.len() - b.len() - 1);
    assert(x[i] == '-');
    assert(x[j] == '-');
    if i < j {
        assert(x[j] == a[j - i - 1]);
        assert(digit(a[j - i - 1]));
    }
    if j < i {
        assert(x[i] == b[i - j - 1]);
        assert(digit(b[i - j - 1]));
    }
    assert(a =~= x.skip(x.len() - a.len()));
    assert(b =~= x.skip(x.len() - b.len()));
    lemma_decimal_injective(number as nat, other as nat);
}

// ---------------------------------------------------------------------------
// Starting sessions
// ---------------------------------------------------------------------------

/// Whether a session is the one that a request started at `now` under an id: it runs, and has no
/// points yet.
pub open spec fn just_started(
    session: MonitorSession,
    req: MonitorStartUiReq,
    id: Seq<char>,
    now: u64,
) -> bool {
    &&& session.id@ == id
    &&& session.side@ == req.side@
    &&& session.iface@ == trimmed(req.iface@)
    &&& session.started == now
    &&& session.data.points@.len() == 0
    &&& session.data.dropped == 0
    &&& session.data.error is None
    &&& session.data.running
    &&& session.data.last_poll is None
}

/// Whether a table of sessions is another in which a request started one at `now` under an id: those
/// that have ended are dropped, and the new one stands behind the others.
pub open spec fn starts(
    before: Seq<MonitorSession>,
    after: Seq<MonitorSession>,
    req: MonitorStartUiReq,
    id: Seq<char>,
    now: u64,
) -> bool {
    &&& after.len() > 0
    &&& after.drop_last() == kept_sessions_to(before, now, before.len() as int)
    &&& just_started(after.last(), req, id, now)
}

/// Starts a session, and gives its id and its interval.
pub fn start_monitor(
    monitors: &mut Vec<MonitorSession>,
    ids: &mut SessionIds,
    req: &MonitorStartUiReq,
    agent_host: &str,
    pid: u32,
    millis: u64,
    now: u64,
) -> (r: Result<(String, u64), String>)
    requires
        old(ids).next < u64::MAX,
    ensures
        ({
            let left = kept_sessions_to(old(monitors)@, now, old(monitors)@.len() as int);
            match r {
                Ok((id, interval)) => {
                    &&& start_told(*req, left.len(), agent_host@) is Ok
                    &&& id@ == session_id(pid, millis, old(ids).next)
                    &&& interval == interval_for(req.side@, req.interval_ms)
                    &&& starts(old(monitors)@, final(monitors)@, *req, id@, now)
                    &&& final(ids).next == old(ids).next + 1
                },
                Err(e) => {
                    &&& start_told(*req, left.len(), agent_host@) == Err::<(), Seq<char>>(e@)
                    &&& final(monitors)@ == if blank(req.iface@) {
                        old(monitors)@
                    } else {
                        left
                    }
                    &&& final(ids).next == old(ids).next
                },
            }
        }),
{
    let interval: u64 = match admit_monitor(monitors, req, agent_host, now) {
        Ok(interval) => interval,
        Err(e) => {
            return Err(e);
        },
    };
    let ghost left = monitors@;
    let id = ids.next_monitor_session_id(pid, millis);
    monitors.push(
        MonitorSession {
            id: id.clone(),
            side: req.side.clone(),
            iface: owned(trim(req.iface.as_str())),
            data: MonitorData::new(),
            started: now,
        },
    );
    assert(monitors@.drop_last() =~= left);
    Ok((id, interval))
}

/// Whether the ids of a table were given out before number `next`, no two alike.
pub open spec fn ids_given(sessions: Seq<MonitorSession>, next: u64) -> bool {
    &&& forall|i: int| 0 <= i < sessions.len() ==> id_given((#[trigger] sessions[i]).id@, next)
    &&& forall|i: int, j: int|
        0 <= i < j < sessions.len() ==> (#[trigger] sessions[i]).id@ != (#[trigger] sessions[j]).id@
}

/// Whether an id was given out before number `next`.
pub open spec fn id_given(id: Seq<char>, next: u64) -> bool {
    exists|pid: u32, millis: u64, number: u64|
        number < next && id == #[trigger] session_id(pid, millis, number)
}

proof fn lemma_new_id(pid: u32, millis: u64, next: u64, id: Seq<char>)
    requires
        id_given(id, next),
    ensures
        id != session_id(pid, millis, next),
{
    let (p, m, n) = choose|p: u32, m: u64, n: u64| n < next && id == #[trigger] session_id(p, m, n);
    if id == session_id(pid, millis, next) {
        lemma_session_ids_differ(p, pid, m, millis, n, next);
    }
}

proof fn lemma_kept_ids(sessions: Seq<MonitorSession>, now: u64, n: int, next: u64)
    requires
        0 <= n <= sessions.len(),
        ids_given(sessions, next),
    ensures
        ids_given(kept_sessions_to(sessions, now, n), next),
        forall|k: int|
            0 <= k < kept_sessions_to(sessions, now, n).len() ==> exists|i: int|
                0 <= i < n && sessions[i] == #[trigger] kept_sessions_to(sessions, now, n)[k],
    decreases n,
{
    if n > 0 {
        lemma_kept_ids(sessions, now, n - 1, next);
        let before = kept_sessions_to(sessions, now, n - 1);
        let after = kept_sessions_to(sessions, now, n);
        assert forall|k: int| 0 <= k < after.len() implies exists|i: int|
            0 <= i < n && sessions[i] == #[trigger] after[k] by {
            if k < before.len() {
                assert(after[k] == before[k]);
                let i = choose|i: int| 0 <= i < n - 1 && sessions[i] == before[k];
                assert(0 <= i < n && sessions[i] == after[k]);
            } else {
                assert(sessions[n - 1] == after[k]);
            }
        }
        assert forall|i: int, j: int| 0 <= i < j < after.len() implies (#[trigger] after[i]).id@ != (
        #[trigger] after[j]).id@ by {
            assert(after[i] == before[i]);
            if j < before.len() {
                assert(after[j] == before[j]);
            } else {
                let k = choose|k: int| 0 <= k < n - 1 && sessions[k] == before[i];
                assert(sessions[k].id@ != sessions[n - 1].id@);
            }
        }
    }
}

proof fn lemma_session_index(sessions: Seq<MonitorSession>, id: Seq<char>, i: int)
    requires
        0 <= i <= sessions.len(),
    ensures
        i <= session_index(sessions, id, i) <= sessions.len(),
    decreases sessions.len() - i,
{
    if i < sessions.len() && sessions[i].id@ != id {
        lemma_session_index(sessions, id, i + 1);
    }
}

proof fn lemma_touched_ids(
    sessions: Seq<MonitorSession>,
    cursors: Seq<MonitorCursor>,
    now: u64,
    n: int,
    next: u64,
)
    requires
        ids_given(sessions, next),
    ensures
        ids_given(touched_to(sessions, cursors, now, n), next),
    decreases n,
{
    if n > 0 {
        lemma_touched_ids(sessions, cursors, now, n - 1, next);
        let before = touched_to(sessions, cursors, now, n - 1);
        let after = touched_to(sessions, cursors, now, n);
        lemma_session_index(before, cursors[n - 1].session@, 0);
        assert(after.len() == before.len());
        assert forall|i: int| 0 <= i < after.len() implies (#[trigger] after[i]).id == before[i].id by {}
        assert forall|i: int| 0 <= i < after.len() implies id_given((#[trigger] after[i]).id@, next) by {
            assert(after[i].id == before[i].id);
        }
        assert forall|i: int, j: int| 0 <= i < j < after.len() implies (#[trigger] after[i]).id@ != (
        #[trigger] after[j]).id@ by {
            assert(after[i].id == before[i].id && after[j].id == before[j].id);
        }
    }
}

/// Dropping ended sessions, polling and stopping leave every id in the table one of its own: no
/// operation but a start brings an id in.
pub proof fn lemma_ids_stay_apart(
    sessions: Seq<MonitorSession>,
    cursors: Seq<MonitorCursor>,
    now: u64,
    next: u64,
    at: int,
)
    requires
        ids_given(sessions, next),
    ensures
        ids_given(kept_sessions_to(sessions, now, sessions.len() as int), next),
        ids_given(touched_to(sessions, cursors, now, cursors.len() as int), next),
        0 <= at < sessions.len() ==> ids_given(sessions.remove(at), next),
{
    lemma_kept_ids(sessions, now, sessions.len() as int, next);
    lemma_touched_ids(sessions, cursors, now, cursors.len() as int, next);
    if 0 <= at < sessions.len() {
        let left = sessions.remove(at);
        assert forall|i: int| 0 <= i < left.len() implies id_given((#[trigger] left[i]).id@, next) by {
            assert(left[i] == sessions[if i < at {
                i
            } else {
                i + 1
            }]);
        }
        assert forall|i: int, j: int| 0 <= i < j < left.len() implies (#[trigger] left[i]).id@ != (
        #[trigger] left[j]).id@ by {
            let a = if i < at {
                i
            } else {
                i + 1
            };
            let b = if j < at {
                j
            } else {
                j + 1
            };
            assert(left[i] == sessions[a] && left[j] == sessions[b]);
        }
    }
}

/// A session that is started, whenever that is, gets an id of its own that bears the process, and
/// takes the place of no session that runs.
pub proof fn lemma_started_sessions_stay(
    before: Seq<MonitorSession>,
    after: Seq<MonitorSession>,
    next: u64,
    req: MonitorStartUiReq,
    pid: u32,
    millis: u64,
    now: u64,
)
    requires
        next < u64::MAX,
        ids_given(before, next),
        starts(before, after, req, session_id(pid, millis, next), now),
    ensures
        ids_given(after, (next + 1) as u64),
        begins(session_id(pid, millis, next), "mon-"@ + decimal(pid as nat) + "-"@),
        forall|i: int|
            0 <= i < before.len() && (#[trigger] before[i]).data.running ==> after.contains(
                before[i],
            ) && before[i].id@ != session_id(pid, millis, next),
{
    let id = session_id(pid, millis, next);
    let n = before.len() as int;
    let left = kept_sessions_to(before, now, n);
    let m = left.len() as int;
    lemma_kept_ids(before, now, n, next);
    assert(after.len() == m + 1);
    assert forall|i: int| 0 <= i < m implies after[i] == #[trigger] left[i] by {
        assert(after.drop_last()[i] == after[i]);
    }
    assert forall|i: int| 0 <= i < after.len() implies id_given(
        (#[trigger] after[i]).id@,
        (next + 1) as u64,
    ) by {
        if i < m {
            assert(after[i] == left[i]);
            let (p, t, k) = choose|p: u32, t: u64, k: u64|
                k < next && left[i].id@ == #[trigger] session_id(p, t, k);
            assert(after[i].id@ == session_id(p, t, k));
        } else {
            assert(after[i].id@ == session_id(pid, millis, next));
        }
    }
    assert forall|i: int, j: int| 0 <= i < j < after.len() implies (#[trigger] after[i]).id@ != (
    #[trigger] after[j]).id@ by {
        assert(after[i] == left[i]);
        if j < m {
            assert(after[j] == left[j]);
        } else {
            lemma_new_id(pid, millis, next, left[i].id@);
        }
    }
    let head = "mon-"@ + decimal(pid as nat) + "-"@;
    assert(id.subrange(0, head.len() as int) =~= head);
    assert forall|i: int| 0 <= i < n && (#[trigger] before[i]).data.running implies after.contains(
        before[i],
    ) && before[i].id@ != id by {
        lemma_running_sessions_stay(before, now, n, i);
        let k = choose|k: int| 0 <= k < left.len() && left[k] == before[i];
        assert(after[k] == left[k]);
        lemma_new_id(pid, millis, next, before[i].id@);
    }
}

/// Two sessions that are started one behind the other, even within one millisecond, both stand in the
/// table, under two ids.
pub proof fn lemma_two_starts_give_two_sessions(
    before: Seq<MonitorSession>,
    between: Seq<MonitorSession>,
    after: Seq<MonitorSession>,
    next: u64,
    first: MonitorStartUiReq,
    second: MonitorStartUiReq,
    pid: u32,
    first_millis: u64,
    second_millis: u64,
    first_now: u64,
    second_now: u64,
)
    requires
        next + 1 < u64::MAX,
        ids_given(before, next),
        starts(before, between, first, session_id(pid, first_millis, next), first_now),
        starts(
            between,
            after,
            second,
            session_id(pid, second_millis, (next + 1) as u64),
            second_now,
        ),
    ensures
        session_id(pid, first_millis, next) != session_id(pid, second_millis, (next + 1) as u64),
        after.contains(between.last()),
        after.contains(after.last()),
        between.last().id@ == session_id(pid, first_millis, next),
        after.last().id@ == session_id(pid, second_millis, (next + 1) as u64),
{
    lemma_started_sessions_stay(before, between, next, first, pid, first_millis, first_now);
    lemma_started_sessions_stay(
        between,
        after,
        (next + 1) as u64,
        second,
        pid,
        second_millis,
        second_now,
    );
    assert(between[between.len() - 1].data.running);
    assert(after[after.len() - 1] == after.last());
}

} // verus!
