//! What reading a configuration back makes of its tests.
use vstd::prelude::*;
use vstd::string::*;
use crate::config::{NicProfile, TestSpec, UdpProfileView};
use crate::import::{
    bandwidth_pinned, count_or, directions_seen, endpoint_spelled, finished_row, group_of,
    host_meant, import_notices, import_step, known_to, lengths_to, load_bandwidths, norm, pins,
    row_index, row_with, same_tcp_run, same_udp_run, selected_name, shown_transports, steps_index,
    tcp_group_index, test_pinned, test_transports, udp_group_index, windows_to, with_number,
    with_steps, with_tcp_group, with_udp_group, ImportRowView, ImportStateView, PairImportView,
    TcpGroupOutView, TcpStepsView, UdpGroupOutView,
};
use crate::meaning::rate::holds_a_rate;
use crate::meaning::settings::{lemma_cut_is_at_the_first, names_interface};
use crate::meaning::suite::{asks_direction, lemma_directions_are_those_asked_for};
use crate::number::Double;
use crate::readings::{reading, Endpoint, Readings};
use crate::round_trip::rows::lemma_with_texts;
use crate::suite::directions_meant;
use crate::sweep::lemma_deduped;
use crate::text::{alike, begins, blank, decimal, in_small, joined, texts, trimmed};

verus! {

// ---------------------------------------------------------------------------
// Ends
// ---------------------------------------------------------------------------

/// An end that is read is spelled by the side and the name of its interface.
pub proof fn lemma_read_end_is_spelled_by_its_interface(
    rd: Readings,
    raw: Seq<char>,
    end: Endpoint,
)
    requires
        reading(rd.endpoints@, raw) == Ok::<Endpoint, Seq<char>>(end),
    ensures
        end.side is Master ==> endpoint_spelled(rd, raw) == Some(
            "master"@ + ":NAME="@ + end.nic.name@,
        ),
        end.side is Agent ==> endpoint_spelled(rd, raw) == Some(
            "agent"@ + ":NAME="@ + end.nic.name@,
        ),
{
}

/// A host goes by one of three names, whatever their case and the spaces around them.
pub proof fn lemma_hosts_go_by_their_names(raw: Seq<char>)
    ensures
        ({
            let t = in_small(trimmed(raw));
            let master = t == "master"@ || t == "local"@ || t == "主控"@;
            let agent = t == "agent"@ || t == "remote"@ || t == "辅测"@;
            &&& master ==> host_meant(raw) == Some("master"@)
            &&& agent ==> host_meant(raw) == Some("agent"@)
            &&& !master && !agent ==> host_meant(raw) is None
        }),
{
    reveal_strlit("master");
    reveal_strlit("local");
    reveal_strlit("主控");
    reveal_strlit("agent");
    reveal_strlit("remote");
    reveal_strlit("辅测");
    assert("master"@.len() == 6 && "local"@.len() == 5 && "agent"@.len() == 5 && "remote"@.len()
        == 6);
    assert("主控"@.len() == 2 && "辅测"@.len() == 2 && "主控"@[0] == '主' && "辅测"@[0] == '辅');
    assert("master"@[0] == 'm' && "remote"@[0] == 'r' && "local"@[0] == 'l' && "agent"@[0] == 'a');
}

/// An end that cannot be read is spelled by what it says of its host and its interface, where it says
/// both.
pub proof fn lemma_unread_end_is_spelled_by_its_words(
    rd: Readings,
    raw: Seq<char>,
    host: Seq<char>,
    rest: Seq<char>,
)
    requires
        reading(rd.endpoints@, raw) is Err,
        raw == host + seq![':'] + rest,
        !host.contains(':'),
    ensures
        host_meant(host) is None || selected_name(rest) is None || (selected_name(rest) is Some
            && selected_name(rest)->Some_0.len() == 0) ==> endpoint_spelled(rd, raw) is None,
        host_meant(host) matches Some(side) ==> (selected_name(rest) matches Some(name) ==> (
        name.len() > 0 ==> endpoint_spelled(rd, raw) == Some(side + ":NAME="@ + name))),
{
    lemma_cut_is_at_the_first(raw, ':', host, rest);
}

/// The name of an interface stands behind the word for it.
pub proof fn lemma_names_stand_behind_their_word(raw: Seq<char>)
    ensures
        ({
            let t = trimmed(raw);
            &&& begins(t, "NAME="@) || begins(t, "name="@) ==> selected_name(raw) == Some(
                trimmed(t.skip(5)),
            )
            &&& !begins(t, "NAME="@) && !begins(t, "name="@) ==> selected_name(raw) is None
        }),
{
    reveal_strlit("NAME=");
    reveal_strlit("name=");
}

// ---------------------------------------------------------------------------
// Pinned interfaces
// ---------------------------------------------------------------------------

/// An interface is pinned where a profile of it gives a bandwidth.
pub proof fn lemma_pinned_by_a_profile(
    profiles: Seq<NicProfile>,
    endpoint: Seq<char>,
    host: Seq<char>,
    name: Seq<char>,
)
    requires
        names_interface(endpoint, host, name),
    ensures
        bandwidth_pinned(profiles, endpoint) <==> exists|i: int|
            0 <= i < profiles.len() && (#[trigger] profiles[i]).udp_bandwidth is Some && !blank(
                profiles[i].udp_bandwidth->0@,
            ) && alike(profiles[i].host@, host) && alike(profiles[i].name@, name),
{
    reveal_strlit("NAME=");
    reveal_strlit(":NAME=");
    let rest = "NAME="@ + name;
    assert(":NAME="@ =~= seq![':'] + "NAME="@);
    assert(endpoint =~= host + seq![':'] + rest);
    lemma_cut_is_at_the_first(endpoint, ':', host, rest);
    assert(rest.subrange(0, 5) =~= "NAME="@);
    assert(rest.skip(5) =~= name);
    if bandwidth_pinned(profiles, endpoint) {
        let i = choose|i: int| 0 <= i < profiles.len() && pins(#[trigger] profiles[i], host, name);
        assert(profiles[i].udp_bandwidth is Some);
    }
    if exists|i: int|
        0 <= i < profiles.len() && (#[trigger] profiles[i]).udp_bandwidth is Some && !blank(
            profiles[i].udp_bandwidth->0@,
        ) && alike(profiles[i].host@, host) && alike(profiles[i].name@, name) {
        let i = choose|i: int|
            0 <= i < profiles.len() && (#[trigger] profiles[i]).udp_bandwidth is Some && !blank(
                profiles[i].udp_bandwidth->0@,
            ) && alike(profiles[i].host@, host) && alike(profiles[i].name@, name);
        assert(pins(profiles[i], host, name));
    }
}

/// A test is pinned where it has directions and each of them is sent by a pinned interface.
pub proof fn lemma_test_is_pinned_by_its_senders(
    profiles: Seq<NicProfile>,
    test: TestSpec,
    src: Seq<char>,
    dst: Seq<char>,
)
    ensures
        ({
            let (s, d) = (bandwidth_pinned(profiles, src), bandwidth_pinned(profiles, dst));
            let dirs = test.direction@;
            let some = asks_direction(dirs, "ab"@) || asks_direction(dirs, "ba"@) || asks_direction(
                dirs,
                "bidir"@,
            );
            test_pinned(profiles, test, src, dst) <==> some && (asks_direction(dirs, "ab"@) ==> s)
                && (asks_direction(dirs, "ba"@) ==> d) && (asks_direction(dirs, "bidir"@) ==> s
                && d)
        }),
{
    let (s, d) = (bandwidth_pinned(profiles, src), bandwidth_pinned(profiles, dst));
    let raw = test.direction@;
    let dirs = directions_meant(raw);
    reveal_strlit("ab");
    reveal_strlit("ba");
    reveal_strlit("bidir");
    assert("ab"@[0] == 'a' && "ba"@[0] == 'b' && "ba"@.len() == 2 && "bidir"@.len() == 5);
    lemma_directions_are_those_asked_for(raw, "ab"@);
    lemma_directions_are_those_asked_for(raw, "ba"@);
    lemma_directions_are_those_asked_for(raw, "bidir"@);
    assert forall|i: int| 0 <= i < dirs.len() implies #[trigger] dirs[i] == "ab"@ || dirs[i]
        == "ba"@ || dirs[i] == "bidir"@ by {
        lemma_directions_are_those_asked_for(raw, dirs[i]);
        assert(dirs.contains(dirs[i]));
        assert(asks_direction(raw, dirs[i]));
    }
    if dirs.len() > 0 {
        assert(dirs.contains(dirs[0]));
    }
    if test_pinned(profiles, test, src, dst) {
        if dirs.contains("ab"@) {
            let i = choose|i: int| 0 <= i < dirs.len() && dirs[i] == "ab"@;
            assert(crate::plan::direction_pinned(dirs[i], s, d));
        }
        if dirs.contains("ba"@) {
            let i = choose|i: int| 0 <= i < dirs.len() && dirs[i] == "ba"@;
            assert(crate::plan::direction_pinned(dirs[i], s, d));
        }
        if dirs.contains("bidir"@) {
            let i = choose|i: int| 0 <= i < dirs.len() && dirs[i] == "bidir"@;
            assert(crate::plan::direction_pinned(dirs[i], s, d));
        }
    } else if dirs.len() > 0 {
        let i = choose|i: int|
            0 <= i < dirs.len() && !crate::plan::direction_pinned(#[trigger] dirs[i], s, d);
        assert(dirs.contains(dirs[i]));
    }
}

// ---------------------------------------------------------------------------
// Rows
// ---------------------------------------------------------------------------

/// A direction as seen from the other end.
pub open spec fn from_the_other_end(dir: Seq<char>) -> Seq<char> {
    if dir == "ab"@ {
        "ba"@
    } else if dir == "ba"@ {
        "ab"@
    } else {
        dir
    }
}

/// A threshold stays once it is known; before, it is the test's where a rate can be held to it.
pub open spec fn first_known(
    own: Option<Double>,
    more: Option<Double>,
    result: Option<Double>,
) -> bool {
    if own is Some {
        result == own
    } else if more is Some && holds_a_rate(more->0) {
        result == more
    } else {
        result is None
    }
}

/// What a row takes from a test: its directions, transports and address families join those of the
/// row, and its thresholds fill those that are missing. A test with the ends exchanged has its
/// directions and its thresholds exchanged too.
pub proof fn lemma_row_takes_what_a_test_says(
    row: ImportRowView,
    test: TestSpec,
    flip: bool,
    default_tcp: TcpGroupOutView,
    x: Seq<char>,
)
    ensures
        ({
            let after = row_with(row, test, flip, default_tcp);
            let bidir = test.rate_targets_bidir_mbps;
            let ab = if bidir is Some {
                bidir->0.ab
            } else {
                None
            };
            let ba = if bidir is Some {
                bidir->0.ba
            } else {
                None
            };
            &&& after.pair.src == row.pair.src
            &&& after.pair.dst == row.pair.dst
            &&& after.pair.udp_groups == row.pair.udp_groups
            &&& after.pair.directions.contains(x) <==> row.pair.directions.contains(x) || (if flip {
                asks_direction(test.direction@, from_the_other_end(x))
            } else {
                asks_direction(test.direction@, x)
            })
            &&& after.pair.transports.contains(x) <==> row.pair.transports.contains(x)
                || shown_transports(test).contains(x)
            &&& after.pair.ip.contains(x) <==> row.pair.ip.contains(x) || ((x == "v4"@ || x == "v6"@)
                && exists|i: int|
                0 <= i < test.ip@.len() && in_small(trimmed((#[trigger] test.ip@[i])@)) == x)
            &&& !flip ==> first_known(
                row.pair.rx_target_bidir_ab,
                ab,
                after.pair.rx_target_bidir_ab,
            ) && first_known(row.pair.rx_target_bidir_ba, ba, after.pair.rx_target_bidir_ba)
            &&& flip ==> first_known(
                row.pair.rx_target_bidir_ab,
                ba,
                after.pair.rx_target_bidir_ab,
            ) && first_known(row.pair.rx_target_bidir_ba, ab, after.pair.rx_target_bidir_ba)
        }),
{
    let meant = directions_meant(test.direction@);
    let seen = directions_seen(meant, flip);
    lemma_with_texts(row.pair.directions, seen);
    lemma_with_texts(row.pair.transports, shown_transports(test));
    let ips = known_to(texts(test.ip@), "v4"@, "v6"@, test.ip@.len() as int);
    lemma_with_texts(row.pair.ip, ips);
    lemma_known_members(texts(test.ip@), "v4"@, "v6"@, test.ip@.len() as int, x);
    assert(ips.contains(x) <==> ((x == "v4"@ || x == "v6"@) && exists|i: int|
        0 <= i < test.ip@.len() && in_small(trimmed((#[trigger] test.ip@[i])@)) == x)) by {
        let list = texts(test.ip@);
        if exists|i: int| 0 <= i < list.len() && in_small(trimmed(#[trigger] list[i])) == x {
            let i = choose|i: int| 0 <= i < list.len() && in_small(trimmed(#[trigger] list[i])) == x;
            assert(in_small(trimmed(test.ip@[i]@)) == x);
        }
        if exists|i: int|
            0 <= i < test.ip@.len() && in_small(trimmed((#[trigger] test.ip@[i])@)) == x {
            let i = choose|i: int|
                0 <= i < test.ip@.len() && in_small(trimmed((#[trigger] test.ip@[i])@)) == x;
            assert(in_small(trimmed(list[i])) == x);
        }
    }
    reveal_strlit("ab");
    reveal_strlit("ba");
    assert("ab"@[0] != "ba"@[0]);
    let other = from_the_other_end(x);
    lemma_directions_are_those_asked_for(test.direction@, x);
    lemma_directions_are_those_asked_for(test.direction@, other);
    if flip {
        assert(seen.contains(x) <==> meant.contains(other)) by {
            if seen.contains(x) {
                let i = choose|i: int| 0 <= i < seen.len() && seen[i] == x;
                assert(meant[i] == other);
            }
            if meant.contains(other) {
                let i = choose|i: int| 0 <= i < meant.len() && meant[i] == other;
                assert(seen[i] == x);
            }
        }
    } else {
        assert(seen =~= meant);
    }
}

proof fn lemma_known_members(
    list: Seq<Seq<char>>,
    a: Seq<char>,
    b: Seq<char>,
    n: int,
    x: Seq<char>,
)
    requires
        0 <= n <= list.len(),
    ensures
        known_to(list, a, b, n).contains(x) <==> (x == a || x == b) && exists|i: int|
            0 <= i < n && in_small(trimmed(#[trigger] list[i])) == x,
    decreases n,
{
    if n > 0 {
        lemma_known_members(list, a, b, n - 1, x);
        let (before, after) = (known_to(list, a, b, n - 1), known_to(list, a, b, n));
        let word = in_small(trimmed(list[n - 1]));
        if before.contains(x) {
            let k = choose|k: int| 0 <= k < before.len() && before[k] == x;
            assert(after[k] == x);
        }
        if word == a || word == b {
            assert(after[before.len() as int] == word);
            if after.contains(x) && !before.contains(x) {
                let k = choose|k: int| 0 <= k < after.len() && after[k] == x;
                if k < before.len() {
                    assert(before[k] == x);
                }
            }
        }
    }
}

/// A test shows the transports of the matrix that it names, and pings where it is a ping.
pub proof fn lemma_test_shows_its_transports(test: TestSpec, x: Seq<char>)
    ensures
        shown_transports(test).contains(x) <==> ((x == "tcp"@ || x == "udp"@) && exists|i: int|
            0 <= i < test.transports@.len() && in_small(
                trimmed((#[trigger] test.transports@[i])@),
            ) == x) || (x == "ping"@ && exists|i: int|
            0 <= i < test.kinds@.len() && trimmed((#[trigger] test.kinds@[i])@) == "ping"@),
{
    let list = texts(test.transports@);
    lemma_known_members(list, "tcp"@, "udp"@, list.len() as int, x);
    let known = test_transports(test);
    assert(known.contains(x) <==> ((x == "tcp"@ || x == "udp"@) && exists|i: int|
        0 <= i < test.transports@.len() && in_small(trimmed((#[trigger] test.transports@[i])@))
            == x)) by {
        if exists|i: int| 0 <= i < list.len() && in_small(trimmed(#[trigger] list[i])) == x {
            let i = choose|i: int| 0 <= i < list.len() && in_small(trimmed(#[trigger] list[i])) == x;
            assert(in_small(trimmed(test.transports@[i]@)) == x);
        }
        if exists|i: int|
            0 <= i < test.transports@.len() && in_small(trimmed((#[trigger] test.transports@[i])@))
                == x {
            let i = choose|i: int|
                0 <= i < test.transports@.len() && in_small(
                    trimmed((#[trigger] test.transports@[i])@),
                ) == x;
            assert(in_small(trimmed(list[i])) == x);
        }
    }
    let shown = shown_transports(test);
    if known.contains(x) {
        let k = choose|k: int| 0 <= k < known.len() && known[k] == x;
        assert(shown[k] == x);
    }
    if shown.len() > known.len() {
        assert(shown[known.len() as int] == "ping"@);
        if shown.contains(x) && !known.contains(x) {
            let k = choose|k: int| 0 <= k < shown.len() && shown[k] == x;
            if k < known.len() {
                assert(known[k] == x);
            }
        }
    }
}

/// The row at `at` is the first with these ends in this order.
pub open spec fn is_row(
    rows: Seq<ImportRowView>,
    src: Seq<char>,
    dst: Seq<char>,
    at: int,
) -> bool {
    &&& 0 <= at < rows.len()
    &&& rows[at].pair.src == src && rows[at].pair.dst == dst
    &&& forall|i: int|
        0 <= i < at ==> !((#[trigger] rows[i]).pair.src == src && rows[i].pair.dst == dst)
}

proof fn lemma_row_found(rows: Seq<ImportRowView>, src: Seq<char>, dst: Seq<char>, i: int)
    requires
        0 <= i <= rows.len(),
        forall|j: int|
            0 <= j < i ==> !((#[trigger] rows[j]).pair.src == src && rows[j].pair.dst == dst),
    ensures
        ({
            let at = row_index(rows, src, dst, i);
            &&& 0 <= at <= rows.len()
            &&& at < rows.len() ==> is_row(rows, src, dst, at)
            &&& forall|k: int| #[trigger] is_row(rows, src, dst, k) ==> k == at
            &&& at == rows.len() ==> forall|k: int|
                0 <= k < rows.len() ==> !((#[trigger] rows[k]).pair.src == src && rows[k].pair.dst
                    == dst)
        }),
    decreases rows.len() - i,
{
    if i < rows.len() && !(rows[i].pair.src == src && rows[i].pair.dst == dst) {
        lemma_row_found(rows, src, dst, i + 1);
    }
}

/// A test goes to the row with its ends; where there is none, to the one with its ends exchanged, seen
/// from the other end; and where there is none either, to a new row. All other rows stay. Ends that
/// cannot be told are listed, and such a test goes to no row.
pub proof fn lemma_test_goes_to_its_row(
    st: ImportStateView,
    rd: Readings,
    profiles: Seq<NicProfile>,
    test: TestSpec,
    default_udp: UdpGroupOutView,
    default_tcp: TcpGroupOutView,
    src: Seq<char>,
    dst: Seq<char>,
)
    requires
        endpoint_spelled(rd, test.src@) == Some(src),
        endpoint_spelled(rd, test.dst@) == Some(dst),
    ensures
        ({
            let after = import_step(st, rd, profiles, test, default_udp, default_tcp);
            let none_forth = forall|k: int| !(#[trigger] is_row(st.rows, src, dst, k));
            let none_back = forall|k: int| !(#[trigger] is_row(st.rows, dst, src, k));
            &&& after.unresolved == st.unresolved
            &&& forall|k: int|
                #![trigger is_row(st.rows, src, dst, k)]
                is_row(st.rows, src, dst, k) ==> after.rows.len() == st.rows.len() && same_but_groups(
                    after.rows[k],
                    row_with(st.rows[k], test, false, default_tcp),
                ) && forall|j: int|
                    0 <= j < st.rows.len() && j != k ==> #[trigger] after.rows[j] == st.rows[j]
            &&& none_forth ==> forall|k: int|
                #![trigger is_row(st.rows, dst, src, k)]
                is_row(st.rows, dst, src, k) ==> after.rows.len() == st.rows.len() && same_but_groups(
                    after.rows[k],
                    row_with(st.rows[k], test, true, default_tcp),
                ) && forall|j: int|
                    0 <= j < st.rows.len() && j != k ==> #[trigger] after.rows[j] == st.rows[j]
            &&& none_forth && none_back ==> after.rows.len() == st.rows.len() + 1
                && after.rows.last().pair.src == src && after.rows.last().pair.dst == dst && forall|
                j: int,
            | 0 <= j < st.rows.len() ==> #[trigger] after.rows[j] == st.rows[j]
        }),
{
    lemma_row_found(st.rows, src, dst, 0);
    lemma_row_found(st.rows, dst, src, 0);
    let forth = row_index(st.rows, src, dst, 0);
    let back = row_index(st.rows, dst, src, 0);
    if forth < st.rows.len() {
        assert(is_row(st.rows, src, dst, forth));
    }
    if back < st.rows.len() {
        assert(is_row(st.rows, dst, src, back));
    }
}

/// Two rows agree in all but their UDP groups.
pub open spec fn same_but_groups(a: ImportRowView, b: ImportRowView) -> bool {
    a.tcp == b.tcp && a.pair == (PairImportView { udp_groups: a.pair.udp_groups, ..b.pair })
}

/// Ends that cannot be told are listed once each, and nothing else changes.
pub proof fn lemma_untold_ends_are_listed(
    st: ImportStateView,
    rd: Readings,
    profiles: Seq<NicProfile>,
    test: TestSpec,
    default_udp: UdpGroupOutView,
    default_tcp: TcpGroupOutView,
    x: Seq<char>,
)
    requires
        endpoint_spelled(rd, test.src@) is None || endpoint_spelled(rd, test.dst@) is None,
    ensures
        ({
            let after = import_step(st, rd, profiles, test, default_udp, default_tcp);
            &&& after.rows == st.rows
            &&& after.groups == st.groups
            &&& after.ragged == st.ragged
            &&& after.unresolved.contains(x) <==> st.unresolved.contains(x) || (x == test.src@
                && endpoint_spelled(rd, test.src@) is None) || (x == test.dst@ && endpoint_spelled(
                rd,
                test.dst@,
            ) is None)
        }),
{
    crate::round_trip::rows::lemma_with_text(st.unresolved, test.src@);
    crate::round_trip::rows::lemma_with_text(st.unresolved, test.dst@);
    crate::round_trip::rows::lemma_with_text(
        crate::suite::with_text(st.unresolved, test.src@),
        test.dst@,
    );
    let once = crate::suite::with_text(st.unresolved, test.src@);
    assert(once.contains(x) <==> st.unresolved.contains(x) || x == test.src@);
}

// ---------------------------------------------------------------------------
// Groups
// ---------------------------------------------------------------------------

/// The axes of a group are the bandwidths, the lengths and the windows of its loads, each once.
pub proof fn lemma_axes_are_those_of_the_loads(loads: Seq<UdpProfileView>, streams: u32, x: Seq<char>)
    ensures
        ({
            let group = group_of(loads, streams);
            &&& group.streams == streams
            &&& group.name.len() == 0
            &&& group.bandwidths.contains(x) <==> exists|i: int|
                0 <= i < loads.len() && (#[trigger] loads[i]).bandwidth == x
            &&& group.lengths.contains(x) <==> exists|i: int|
                0 <= i < loads.len() && (#[trigger] loads[i]).length == Some(x)
            &&& group.windows.contains(x) <==> exists|i: int|
                0 <= i < loads.len() && (#[trigger] loads[i]).window == Some(x)
            &&& group.bandwidths.no_duplicates()
            &&& group.lengths.no_duplicates()
            &&& group.windows.no_duplicates()
        }),
{
    let n = loads.len() as int;
    lemma_deduped(load_bandwidths(loads));
    lemma_deduped(lengths_to(loads, n));
    lemma_deduped(windows_to(loads, n));
    lemma_lengths(loads, n, x);
    lemma_windows(loads, n, x);
    let b = load_bandwidths(loads);
    assert(b.contains(x) <==> exists|i: int|
        0 <= i < loads.len() && (#[trigger] loads[i]).bandwidth == x) by {
        if b.contains(x) {
            let i = choose|i: int| 0 <= i < b.len() && b[i] == x;
            assert(loads[i].bandwidth == x);
        }
        if exists|i: int| 0 <= i < loads.len() && (#[trigger] loads[i]).bandwidth == x {
            let i = choose|i: int| 0 <= i < loads.len() && (#[trigger] loads[i]).bandwidth == x;
            assert(b[i] == x);
        }
    }
}

proof fn lemma_lengths(loads: Seq<UdpProfileView>, n: int, x: Seq<char>)
    requires
        0 <= n <= loads.len(),
    ensures
        lengths_to(loads, n).contains(x) <==> exists|i: int|
            0 <= i < n && (#[trigger] loads[i]).length == Some(x),
    decreases n,
{
    if n > 0 {
        lemma_lengths(loads, n - 1, x);
        let (before, after) = (lengths_to(loads, n - 1), lengths_to(loads, n));
        if before.contains(x) {
            let k = choose|k: int| 0 <= k < before.len() && before[k] == x;
            assert(after[k] == x);
        }
        if let Some(own) = loads[n - 1].length {
            assert(after[before.len() as int] == own);
            if after.contains(x) && !before.contains(x) {
                let k = choose|k: int| 0 <= k < after.len() && after[k] == x;
                if k < before.len() {
                    assert(before[k] == x);
                }
            }
        }
    }
}

proof fn lemma_windows(loads: Seq<UdpProfileView>, n: int, x: Seq<char>)
    requires
        0 <= n <= loads.len(),
    ensures
        windows_to(loads, n).contains(x) <==> exists|i: int|
            0 <= i < n && (#[trigger] loads[i]).window == Some(x),
    decreases n,
{
    if n > 0 {
        lemma_windows(loads, n - 1, x);
        let (before, after) = (windows_to(loads, n - 1), windows_to(loads, n));
        if before.contains(x) {
            let k = choose|k: int| 0 <= k < before.len() && before[k] == x;
            assert(after[k] == x);
        }
        if let Some(own) = loads[n - 1].window {
            assert(after[before.len() as int] == own);
            if after.contains(x) && !before.contains(x) {
                let k = choose|k: int| 0 <= k < after.len() && after[k] == x;
                if k < before.len() {
                    assert(before[k] == x);
                }
            }
        }
    }
}

proof fn lemma_udp_index(groups: Seq<UdpGroupOutView>, group: UdpGroupOutView, i: int)
    requires
        0 <= i <= groups.len(),
    ensures
        ({
            let at = udp_group_index(groups, group, i);
            &&& i <= at <= groups.len()
            &&& at < groups.len() ==> same_udp_run(groups[at], group)
        }),
    decreases groups.len() - i,
{
    if i < groups.len() && !same_udp_run(groups[i], group) {
        lemma_udp_index(groups, group, i + 1);
    }
}

/// The number of a UDP group leads to a group that runs the same: zero to the default one, or to none
/// where there is no bandwidth; any other to a further group, counted from one. Groups that are there
/// stay.
pub proof fn lemma_udp_number_leads_to_the_group(
    groups: Seq<UdpGroupOutView>,
    default_group: UdpGroupOutView,
    group: UdpGroupOutView,
)
    requires
        groups.len() + 2 <= usize::MAX,
    ensures
        ({
            let (after, number) = with_udp_group(groups, default_group, group);
            &&& groups.len() <= after.len() <= groups.len() + 1
            &&& forall|i: int| 0 <= i < groups.len() ==> #[trigger] after[i] == groups[i]
            &&& number <= after.len()
            &&& number > 0 ==> {
                &&& after[number - 1].bandwidths == group.bandwidths
                &&& after[number - 1].lengths == group.lengths
                &&& after[number - 1].windows == group.windows
                &&& after[number - 1].streams == group.streams
            }
            &&& number == 0 ==> group.bandwidths.len() == 0 || (group.bandwidths
                == default_group.bandwidths && group.lengths == default_group.lengths
                && group.windows == default_group.windows && group.streams
                == default_group.streams)
            &&& group.bandwidths.len() == 0 ==> number == 0
            &&& same_udp_run(group, default_group) ==> number == 0
            &&& after.len() > groups.len() ==> after.last().name == "组 "@ + decimal(
                groups.len() + 2,
            )
        }),
{
    lemma_udp_index(groups, group, 0);
}

proof fn lemma_tcp_index(groups: Seq<TcpGroupOutView>, group: TcpGroupOutView, i: int)
    requires
        0 <= i <= groups.len(),
    ensures
        ({
            let at = tcp_group_index(groups, group, i);
            &&& i <= at <= groups.len()
            &&& at < groups.len() ==> same_tcp_run(groups[at], group)
        }),
    decreases groups.len() - i,
{
    if i < groups.len() && !same_tcp_run(groups[i], group) {
        lemma_tcp_index(groups, group, i + 1);
    }
}

/// The number of a TCP group leads to a group that runs the same windows and numbers of streams: zero
/// to the default one, any other to a further group, counted from one. Groups that are there stay.
pub proof fn lemma_tcp_number_leads_to_the_group(
    groups: Seq<TcpGroupOutView>,
    default_group: TcpGroupOutView,
    group: TcpGroupOutView,
)
    requires
        groups.len() + 2 <= usize::MAX,
    ensures
        ({
            let (after, number) = with_tcp_group(groups, default_group, group);
            &&& groups.len() <= after.len() <= groups.len() + 1
            &&& forall|i: int| 0 <= i < groups.len() ==> #[trigger] after[i] == groups[i]
            &&& number <= after.len()
            &&& number > 0 ==> after[number - 1].windows == group.windows && norm(
                after[number - 1].streams,
            ) == norm(group.streams)
            &&& number == 0 <==> group.windows == default_group.windows && norm(group.streams)
                == norm(default_group.streams)
            &&& after.len() > groups.len() ==> after.last().name == "TCP 组 "@ + decimal(
                groups.len() + 2,
            )
        }),
{
    lemma_tcp_index(groups, group, 0);
}

proof fn lemma_steps_found(tcp: Seq<TcpStepsView>, windows: Seq<Seq<char>>, i: int)
    requires
        0 <= i <= tcp.len(),
    ensures
        ({
            let at = steps_index(tcp, windows, i);
            &&& i <= at <= tcp.len()
            &&& at < tcp.len() ==> tcp[at].windows == windows
            &&& forall|j: int| i <= j < at ==> (#[trigger] tcp[j]).windows != windows
        }),
    decreases tcp.len() - i,
{
    if i < tcp.len() && tcp[i].windows != windows {
        lemma_steps_found(tcp, windows, i + 1);
    }
}

/// A TCP test adds its number of streams to the steps with its windows, new ones where there are none;
/// all other steps stay.
pub proof fn lemma_steps_take_the_streams(
    tcp: Seq<TcpStepsView>,
    windows: Seq<Seq<char>>,
    stream: u32,
)
    ensures
        ({
            let after = with_steps(tcp, windows, stream);
            &&& exists|i: int|
                0 <= i < after.len() && (#[trigger] after[i]).windows == windows
                    && after[i].streams.contains(stream)
            &&& tcp.len() <= after.len() <= tcp.len() + 1
            &&& forall|i: int|
                0 <= i < tcp.len() ==> (#[trigger] after[i]).windows == tcp[i].windows
            &&& forall|i: int|
                0 <= i < tcp.len() && (#[trigger] tcp[i]).windows != windows ==> after[i] == tcp[i]
            &&& forall|i: int, s: u32|
                0 <= i < tcp.len() && #[trigger] tcp[i].streams.contains(s)
                    ==> after[i].streams.contains(s)
        }),
{
    lemma_steps_found(tcp, windows, 0);
    let at = steps_index(tcp, windows, 0);
    let after = with_steps(tcp, windows, stream);
    if at < tcp.len() {
        let (own, more) = (tcp[at].streams, with_number(tcp[at].streams, stream));
        if !own.contains(stream) {
            assert(more[own.len() as int] == stream);
        }
        assert(after[at].windows == windows && after[at].streams.contains(stream));
        assert forall|s: u32| own.contains(s) implies more.contains(s) by {
            let k = choose|k: int| 0 <= k < own.len() && own[k] == s;
            assert(more[k] == s);
        }
    } else {
        let one = seq![stream];
        assert(one[0] == stream);
        assert(after[tcp.len() as int].streams.contains(stream));
    }
}

/// A row takes from a TCP test a run with the test's windows, or those of the default group where it
/// has none, in the test's number of streams, one where it says none. No other test changes the runs
/// of a row.
pub proof fn lemma_row_takes_the_tcp_run(
    row: ImportRowView,
    test: TestSpec,
    flip: bool,
    default_tcp: TcpGroupOutView,
)
    ensures
        ({
            let after = row_with(row, test, flip, default_tcp).tcp;
            let windows = if test.tcp_windows is Some {
                texts(test.tcp_windows->0@)
            } else {
                default_tcp.windows
            };
            let streams = if test.tcp_streams is Some && test.tcp_streams->0 > 0 {
                test.tcp_streams->0
            } else {
                1
            };
            &&& test_transports(test).contains("tcp"@) ==> (exists|i: int|
                0 <= i < after.len() && (#[trigger] after[i]).windows == windows
                    && after[i].streams.contains(streams)) && forall|i: int|
                0 <= i < row.tcp.len() && (#[trigger] row.tcp[i]).windows != windows ==> after[i]
                    == row.tcp[i]
            &&& !(test_transports(test).contains("tcp"@)) ==> after == row.tcp
        }),
{
    let windows = if test.tcp_windows is Some {
        texts(test.tcp_windows->0@)
    } else {
        default_tcp.windows
    };
    let streams = count_or(test.tcp_streams, 1);
    lemma_steps_take_the_streams(row.tcp, windows, streams);
    let after = row_with(row, test, flip, default_tcp).tcp;
    if test_transports(test).contains("tcp"@) {
        assert(after == with_steps(row.tcp, windows, streams));
        let i = choose|i: int|
            0 <= i < after.len() && (#[trigger] after[i]).windows == windows
                && after[i].streams.contains(streams);
        assert(after[i].windows == windows);
    }
}

/// A count that is missing or zero gives way.
pub proof fn lemma_missing_count_gives_way(count: Option<u32>, fallback: u32)
    ensures
        count is None || count == Some(0u32) ==> count_or(count, fallback) == fallback,
        count is Some && count != Some(0u32) ==> Some(count_or(count, fallback)) == count,
{
}

/// A row that asks for no group runs the default one.
pub proof fn lemma_row_without_groups_runs_the_default(row: ImportRowView, numbers: Seq<usize>)
    ensures
        ({
            let pair = finished_row(row, numbers);
            &&& row.pair.udp_groups.len() == 0 ==> pair.udp_groups == seq![0usize]
            &&& row.pair.udp_groups.len() > 0 ==> pair.udp_groups == row.pair.udp_groups
            &&& numbers.len() == 0 ==> pair.tcp_groups == seq![0usize]
            &&& numbers.len() > 0 ==> pair.tcp_groups == numbers
            &&& pair.src == row.pair.src && pair.dst == row.pair.dst
            &&& pair.directions == row.pair.directions
            &&& pair.transports == row.pair.transports
            &&& pair.ip == row.pair.ip
            &&& pair.rx_target_bidir_ab == row.pair.rx_target_bidir_ab
            &&& pair.rx_target_bidir_ba == row.pair.rx_target_bidir_ba
        }),
{
}

/// Whoever reads a configuration is told of ends that are gone, of loads that no axes give, and of
/// further groups; and of nothing else.
pub proof fn lemma_import_tells_what_it_changed(st: ImportStateView, tcp_groups: nat)
    ensures
        ({
            let told = import_notices(st, tcp_groups);
            &&& told.len() == (if st.unresolved.len() > 0 {
                1int
            } else {
                0
            }) + (if st.ragged {
                1int
            } else {
                0
            }) + (if tcp_groups > 0 {
                1int
            } else {
                0
            }) + (if st.groups.len() > 0 {
                1int
            } else {
                0
            })
            &&& st.unresolved.len() > 0 ==> told[0] == "这些端点在当前网口表里找不到，相关配对没有导入："@
                + joined(st.unresolved, "、"@)
            &&& st.groups.len() > 0 ==> told.last() == "文件里有 "@ + decimal(st.groups.len())
                + " 组和默认组不同的 "@ + "UDP"@ + " 参数，已建成附加组并按行选好。"@
        }),
{
}

} // verus!
