//! What a page gets of the monitors that it watches.
use vstd::prelude::*;
use vstd::string::*;
use crate::sessions::{
    excess, interval_for, kept_sessions_to, series_for, series_to, session_index, session_kept,
    start_told, touched_to, MonitorCursor, MonitorPoint, MonitorSession, MonitorStartUiReq,
};
use crate::text::blank;

verus! {

/// A session is given up once it has ended and its page has not asked for more than a minute and a
/// half.
pub proof fn lemma_sessions_outlive_short_absences(session: MonitorSession, now: u64)
    ensures
        ({
            let seen = if session.data.last_poll is Some {
                session.data.last_poll->0
            } else {
                session.started
            };
            session_kept(session, now) <==> session.data.running || now <= seen + 90_000_000_000
        }),
{
}

/// Giving up sessions keeps the others, in their order.
pub proof fn lemma_kept_sessions_stay_in_order(
    sessions: Seq<MonitorSession>,
    now: u64,
    n: int,
)
    requires
        0 < n <= sessions.len(),
    ensures
        kept_sessions_to(sessions, now, n) == if session_kept(sessions[n - 1], now) {
            kept_sessions_to(sessions, now, n - 1).push(sessions[n - 1])
        } else {
            kept_sessions_to(sessions, now, n - 1)
        },
        kept_sessions_to(sessions, now, 0).len() == 0,
{
}

/// A session samples every second unless asked otherwise, never more often than five times a second,
/// and never more seldom than its side allows: every five seconds for the agent, every minute for the
/// master.
pub proof fn lemma_intervals_are_held(side: Seq<char>, requested: u64)
    ensures
        requested == 0 ==> interval_for(side, requested) == 1_000,
        0 < requested < 200 ==> interval_for(side, requested) == 200,
        200 <= requested <= 5_000 ==> interval_for(side, requested) == requested,
        side == "agent"@ && requested > 5_000 ==> interval_for(side, requested) == 5_000,
        side == "master"@ && 5_000 < requested <= 60_000 ==> interval_for(side, requested)
            == requested,
        side == "master"@ && requested > 60_000 ==> interval_for(side, requested) == 60_000,
{
    reveal_strlit("agent");
    reveal_strlit("master");
    assert("agent"@.len() == 5 && "master"@.len() == 6);
}

/// A session is started on an interface of a side that is known, of the agent only while one is
/// connected, and while there are fewer than eight.
pub proof fn lemma_session_needs_an_interface(
    req: MonitorStartUiReq,
    sessions: nat,
    agent_host: Seq<char>,
)
    ensures
        start_told(req, sessions, agent_host) is Ok <==> !blank(req.iface@) && sessions < 8 && (
        req.side@ == "master"@ || (req.side@ == "agent"@ && agent_host.len() > 0)),
        blank(req.iface@) ==> start_told(req, sessions, agent_host) == Err::<(), Seq<char>>(
            "先选一块网卡"@,
        ),
        !blank(req.iface@) && sessions >= 8 ==> start_told(req, sessions, agent_host) == Err::<
            (),
            Seq<char>,
        >("同时最多 8 路监控；先停掉一路再开"@),
        !blank(req.iface@) && sessions < 8 && req.side@ == "agent"@ && agent_host.len() == 0
            ==> start_told(req, sessions, agent_host) == Err::<(), Seq<char>>(
            "还没连上辅测机，先点「连接」"@,
        ),
        !blank(req.iface@) && sessions < 8 && req.side@ != "agent"@ && req.side@ != "master"@
            ==> start_told(req, sessions, agent_host) == Err::<(), Seq<char>>(
            "未知的监控端: "@ + req.side@,
        ),
{
    reveal_strlit("agent");
    reveal_strlit("master");
    assert("agent"@.len() == 5 && "master"@.len() == 6);
}

/// The session at `at` is the first of an id.
pub open spec fn is_session(sessions: Seq<MonitorSession>, id: Seq<char>, at: int) -> bool {
    &&& 0 <= at < sessions.len()
    &&& sessions[at].id@ == id
    &&& forall|i: int| 0 <= i < at ==> (#[trigger] sessions[i]).id@ != id
}

proof fn lemma_session_index(sessions: Seq<MonitorSession>, id: Seq<char>, i: int)
    requires
        0 <= i <= sessions.len(),
        forall|j: int| 0 <= j < i ==> (#[trigger] sessions[j]).id@ != id,
    ensures
        ({
            let at = session_index(sessions, id, i);
            &&& 0 <= at <= sessions.len()
            &&& at < sessions.len() ==> is_session(sessions, id, at)
            &&& forall|k: int| #[trigger] is_session(sessions, id, k) ==> k == at
            &&& at == sessions.len() ==> forall|k: int|
                0 <= k < sessions.len() ==> (#[trigger] sessions[k]).id@ != id
        }),
    decreases sessions.len() - i,
{
    if i < sessions.len() && sessions[i].id@ != id {
        lemma_session_index(sessions, id, i + 1);
    }
}

/// A page gets of a session the points from its cursor on that are left, with the side, the interface
/// and the state of the session, and where to ask next: behind all of them.
pub proof fn lemma_page_gets_what_it_has_not_seen(
    sessions: Seq<MonitorSession>,
    cursor: MonitorCursor,
    at: int,
)
    requires
        is_session(sessions, cursor.session@, at),
    ensures
        ({
            let out = series_for(sessions, cursor);
            let data = sessions[at].data;
            let all = data.dropped + data.points@.len();
            &&& out.session == cursor.session@
            &&& out.side == sessions[at].side@
            &&& out.iface == sessions[at].iface@
            &&& out.running == data.running
            &&& data.error matches Some(e) ==> out.error == e@
            &&& data.error is None ==> out.error.len() == 0
            &&& out.from == all
            &&& cursor.from >= all ==> out.points.len() == 0
            &&& data.dropped <= cursor.from < all ==> out.points.len() == all - cursor.from
            &&& cursor.from < data.dropped ==> out.points == data.points@
            &&& forall|k: int|
                0 <= k < out.points.len() ==> #[trigger] out.points[k] == data.points@[k + (
                if cursor.from > data.dropped {
                    cursor.from - data.dropped
                } else {
                    0
                })]
        }),
{
    lemma_session_index(sessions, cursor.session@, 0);
    let data = sessions[at].data;
    if cursor.from < data.dropped {
        assert(data.points@.skip(0) =~= data.points@);
    }
}

/// A session that is gone has ended, and the page asks on from where it was.
pub proof fn lemma_gone_session_has_ended(sessions: Seq<MonitorSession>, cursor: MonitorCursor)
    requires
        forall|i: int| 0 <= i < sessions.len() ==> (#[trigger] sessions[i]).id@ != cursor.session@,
    ensures
        ({
            let out = series_for(sessions, cursor);
            &&& !out.running
            &&& out.points.len() == 0
            &&& out.from == cursor.from
            &&& out.session == cursor.session@
            &&& out.error == "监控会话已结束"@
        }),
{
    lemma_session_index(sessions, cursor.session@, 0);
}

/// Asking for a session notes when it was asked for, and changes nothing else of it.
pub proof fn lemma_asking_is_noted(
    sessions: Seq<MonitorSession>,
    cursors: Seq<MonitorCursor>,
    now: u64,
    n: int,
    i: int,
)
    requires
        0 <= n <= cursors.len(),
        0 <= i < sessions.len(),
    ensures
        ({
            let after = touched_to(sessions, cursors, now, n);
            &&& after.len() == sessions.len()
            &&& after[i].id == sessions[i].id
            &&& after[i].side == sessions[i].side
            &&& after[i].iface == sessions[i].iface
            &&& after[i].started == sessions[i].started
            &&& after[i].data.points == sessions[i].data.points
            &&& after[i].data.dropped == sessions[i].data.dropped
            &&& after[i].data.running == sessions[i].data.running
            &&& after[i].data.error == sessions[i].data.error
            &&& after[i].data.last_poll == sessions[i].data.last_poll || after[i].data.last_poll
                == Some(now)
            &&& (exists|c: int|
                0 <= c < n && is_session(sessions, (#[trigger] cursors[c]).session@, i))
                ==> after[i].data.last_poll == Some(now)
            &&& (forall|c: int|
                0 <= c < n ==> !is_session(sessions, (#[trigger] cursors[c]).session@, i))
                ==> after[i] == sessions[i]
        }),
    decreases n,
{
    if n > 0 {
        lemma_asking_is_noted(sessions, cursors, now, n - 1, i);
        let before = touched_to(sessions, cursors, now, n - 1);
        let id = cursors[n - 1].session@;
        lemma_touching_keeps_ids(sessions, cursors, now, n - 1);
        lemma_session_index(before, id, 0);
        lemma_session_index(sessions, id, 0);
        let at = session_index(before, id, 0);
        if at < before.len() {
            assert(is_session(before, id, at));
            assert(is_session(sessions, id, at)) by {
                assert(sessions[at].id == before[at].id);
                assert forall|k: int| 0 <= k < at implies (#[trigger] sessions[k]).id@ != id by {
                    assert(before[k].id == sessions[k].id);
                }
            }
            if is_session(sessions, id, i) {
                assert(i == at);
            }
        } else {
            assert(before[i].id == sessions[i].id);
            assert(!is_session(sessions, id, i));
        }
    }
}

proof fn lemma_touching_keeps_ids(
    sessions: Seq<MonitorSession>,
    cursors: Seq<MonitorCursor>,
    now: u64,
    n: int,
)
    requires
        0 <= n <= cursors.len(),
    ensures
        touched_to(sessions, cursors, now, n).len() == sessions.len(),
        forall|i: int|
            0 <= i < sessions.len() ==> (#[trigger] touched_to(sessions, cursors, now, n)[i]).id
                == sessions[i].id,
    decreases n,
{
    if n > 0 {
        lemma_touching_keeps_ids(sessions, cursors, now, n - 1);
        lemma_session_index(touched_to(sessions, cursors, now, n - 1), cursors[n - 1].session@, 0);
    }
}

/// A page gets one answer for each session that it asks for, in its order.
pub proof fn lemma_every_cursor_is_answered(
    sessions: Seq<MonitorSession>,
    cursors: Seq<MonitorCursor>,
    now: u64,
    n: int,
)
    requires
        0 <= n <= cursors.len(),
    ensures
        series_to(sessions, cursors, now, n).len() == n,
        forall|k: int|
            0 <= k < n ==> (#[trigger] series_to(sessions, cursors, now, n)[k]).session
                == cursors[k].session@,
    decreases n,
{
    if n > 0 {
        lemma_every_cursor_is_answered(sessions, cursors, now, n - 1);
    }
}

/// At most two hours of points at one a second are kept, the newest.
pub proof fn lemma_newest_points_are_kept(points: Seq<MonitorPoint>, point: MonitorPoint)
    ensures
        ({
            let after = points.push(point).skip(excess(points.len() + 1));
            &&& points.len() < 7200 ==> after == points.push(point)
            &&& points.len() == 7200 ==> after == points.skip(1).push(point)
            &&& points.len() >= 7200 ==> after.len() == 7200
            &&& after.last() == point
        }),
{
    let after = points.push(point).skip(excess(points.len() + 1));
    if points.len() < 7200 {
        assert(after =~= points.push(point));
    }
    if points.len() == 7200 {
        assert(after =~= points.skip(1).push(point));
    }
}

} // verus!
