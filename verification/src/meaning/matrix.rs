//! What the tests of a matrix say of the rows they come from.
use vstd::prelude::*;
use vstd::string::*;
use crate::config::{TestSpecView, TotalTarget, UdpProfileView};
use crate::meaning::lists::{
    is_pinned, is_step, lemma_cross_keeps_the_bandwidth, lemma_pinned_are_those_with_a_bandwidth,
    lemma_steps_are_as_given, lemma_sweep_crosses_its_axes, on_axis,
};
use crate::meaning::thresholds::{lemma_no_rate_without_words, lemma_threshold_is_read, says_mbps};
use crate::model::{NicPolicySelection, PairSelection, RunRequest, UiState};
use crate::number::Double;
use crate::plan::{
    base_config, chosen_groups, direction_pinned, directions_where, fixed_bandwidth, group_at,
    group_suffix, matrix_tests_to, pair_base, pair_tests, ping_test, resolved_udp, sweeps_of,
    tcp_group_tests, tcp_groups_to, tcp_test, tcp_tests_to, udp_group_tests, udp_groups_to,
    udp_tests_to, SweepsView,
};
use crate::readings::{reading, Endpoint, Readings};
use crate::round_trip::rows::{lemma_directions_where, lemma_tcp_group_tests, row_tests};
use crate::suite_plan::request_config;
use crate::sweep::{cleaned_or, deduped, lemma_deduped, nonzero};
use crate::text::{blank, decimal, has, texts, trimmed, uppered};
use crate::validate::cleaned;
use crate::validate_plan::request_told;
use crate::wifi_targets::with_wifi_targets;

verus! {

/// Both ends of a row are read, and both are wireless.
pub open spec fn both_wireless(rd: Readings, src: Seq<char>, dst: Seq<char>) -> bool {
    &&& reading(rd.endpoints@, src) matches Ok(a) && is_wireless(a)
    &&& reading(rd.endpoints@, dst) matches Ok(b) && is_wireless(b)
}

/// An end is wireless if the system says so, if it is on a band, or if its role says so.
pub open spec fn is_wireless(end: Endpoint) -> bool {
    end.nic.is_wifi || !blank(end.nic.wifi_band@) || has(uppered(end.nic.role@), "WIFI"@)
}

/// A row runs both ways at once.
pub open spec fn runs_bidir(pair: PairSelection) -> bool {
    exists|i: int| 0 <= i < pair.directions@.len() && (#[trigger] pair.directions@[i])@ == "bidir"@
}

/// A test is held to what its row says of the two directions while both run: each direction to its
/// own text.
pub open spec fn held_both_ways(t: TestSpecView, rd: Readings, pair: PairSelection) -> bool {
    &&& forall|v: Double|
        (t.rate_targets_bidir_mbps is Some && t.rate_targets_bidir_mbps->0.ab == Some(v)) <==> (
        runs_bidir(pair) && #[trigger] says_mbps(rd, pair.rx_target_bidir_ab@, v))
    &&& forall|v: Double|
        (t.rate_targets_bidir_mbps is Some && t.rate_targets_bidir_mbps->0.ba == Some(v)) <==> (
        runs_bidir(pair) && #[trigger] says_mbps(rd, pair.rx_target_bidir_ba@, v))
    &&& t.rate_targets_bidir_mbps matches Some(both) ==> {
        &&& both.forward is None
        &&& both.ab is Some || both.ba is Some
    }
}

/// A test is held to the total that its row says, whatever the row says of the directions; where it
/// says none, only what is set for two wireless ends can stand in.
pub open spec fn held_in_total(t: TestSpecView, rd: Readings, pair: PairSelection) -> bool {
    &&& forall|v: Double|
        runs_bidir(pair) && #[trigger] says_mbps(rd, pair.rx_target_bidir_total@, v)
            ==> t.rate_target_bidir_total_mbps == Some(TotalTarget::Total(v))
    &&& (!runs_bidir(pair) || forall|v: Double|
        !(#[trigger] says_mbps(rd, pair.rx_target_bidir_total@, v))) && !both_wireless(
        rd,
        pair.src@,
        pair.dst@,
    ) ==> t.rate_target_bidir_total_mbps is None
}

/// A test has the ends, the address families and the thresholds of its row, and runs as long as the
/// request says; nothing of a suite is in it.
pub open spec fn speaks_for(
    t: TestSpecView,
    rd: Readings,
    pair: PairSelection,
    duration: u64,
) -> bool {
    &&& t.src == pair.src@
    &&& t.dst == pair.dst@
    &&& t.ip == texts(pair.ip@)
    &&& t.iperf_duration == Some(duration)
    &&& t.streams == 1
    &&& t.direction_listed
    &&& t.rate_mode is None
    &&& t.link_group is None
    &&& t.origin is None
    &&& held_both_ways(t, rd, pair)
    &&& held_in_total(t, rd, pair)
    &&& !both_wireless(rd, pair.src@, pair.dst@) ==> t.rate_targets_mbps is None
}

proof fn lemma_bidir_is_listed(pair: PairSelection)
    ensures
        texts(pair.directions@).contains("bidir"@) <==> runs_bidir(pair),
{
    let list = texts(pair.directions@);
    if list.contains("bidir"@) {
        let i = choose|i: int| 0 <= i < list.len() && list[i] == "bidir"@;
        assert(pair.directions@[i]@ == "bidir"@);
    }
    if runs_bidir(pair) {
        let i = choose|i: int|
            0 <= i < pair.directions@.len() && (#[trigger] pair.directions@[i])@ == "bidir"@;
        assert(list[i] == "bidir"@);
    }
}

/// Whatever the matrix makes of a row on top of its base speaks for the row.
proof fn lemma_base_speaks_for_the_row(
    rd: Readings,
    req: RunRequest,
    pair: PairSelection,
    duration: u64,
    name: Seq<char>,
    transports: Seq<Seq<char>>,
    t: TestSpecView,
)
    requires
        ({
            let base = pair_base(rd, pair, duration, name, transports);
            &&& t.src == base.src
            &&& t.dst == base.dst
            &&& t.ip == base.ip
            &&& t.iperf_duration == base.iperf_duration
            &&& t.streams == base.streams
            &&& t.direction_listed == base.direction_listed
            &&& t.rate_mode == base.rate_mode
            &&& t.link_group == base.link_group
            &&& t.origin == base.origin
            &&& t.rate_targets_mbps == base.rate_targets_mbps
            &&& t.rate_targets_bidir_mbps == base.rate_targets_bidir_mbps
            &&& t.rate_target_bidir_total_mbps == base.rate_target_bidir_total_mbps
        }),
    ensures
        speaks_for(with_wifi_targets(t, rd, req, pair.src@, pair.dst@), rd, pair, duration),
{
    lemma_bidir_is_listed(pair);
    let after = with_wifi_targets(t, rd, req, pair.src@, pair.dst@);
    assert forall|v: Double|
        (after.rate_targets_bidir_mbps is Some && after.rate_targets_bidir_mbps->0.ab == Some(v))
            <==> (runs_bidir(pair) && #[trigger] says_mbps(rd, pair.rx_target_bidir_ab@, v)) by {
        lemma_threshold_is_read(rd, pair.rx_target_bidir_ab@, v);
    }
    assert forall|v: Double|
        (after.rate_targets_bidir_mbps is Some && after.rate_targets_bidir_mbps->0.ba == Some(v))
            <==> (runs_bidir(pair) && #[trigger] says_mbps(rd, pair.rx_target_bidir_ba@, v)) by {
        lemma_threshold_is_read(rd, pair.rx_target_bidir_ba@, v);
    }
    assert forall|v: Double|
        runs_bidir(pair) && #[trigger] says_mbps(
            rd,
            pair.rx_target_bidir_total@,
            v,
        ) implies after.rate_target_bidir_total_mbps == Some(TotalTarget::Total(v)) by {
        lemma_threshold_is_read(rd, pair.rx_target_bidir_total@, v);
    }
    if forall|v: Double| !(#[trigger] says_mbps(rd, pair.rx_target_bidir_total@, v)) {
        lemma_no_rate_without_words(rd, pair.rx_target_bidir_total@);
    }
}

// ---------------------------------------------------------------------------
// Groups
// ---------------------------------------------------------------------------

/// A row runs a group: one that it lists, or the default one where it lists none.
pub open spec fn runs_group(groups: Seq<usize>, group: usize) -> bool {
    if groups.len() == 0 {
        group == 0
    } else {
        groups.contains(group)
    }
}

/// The windows of a TCP group: those of the request or, where it has none, of the console for the
/// default group; its own for any other.
pub open spec fn tcp_windows_of(state: UiState, req: RunRequest, group: usize) -> Seq<Seq<char>> {
    if 0 < group <= req.tcp_groups@.len() {
        cleaned(texts(req.tcp_groups@[group - 1].windows@))
    } else {
        cleaned_or(texts(req.tcp_windows@), state.cfg@.iperf.tcp_windows)
    }
}

/// The numbers of streams that are written down for a TCP group.
pub open spec fn tcp_streams_of(req: RunRequest, group: usize) -> Seq<u32> {
    if 0 < group <= req.tcp_groups@.len() {
        req.tcp_groups@[group - 1].streams@
    } else {
        req.tcp_streams@
    }
}

proof fn lemma_tcp_groups(req: RunRequest, windows: Seq<Seq<char>>, n: int)
    requires
        0 <= n <= req.tcp_groups@.len(),
    ensures
        tcp_groups_to(req, windows, n).len() == n + 1,
        tcp_groups_to(req, windows, n)[0].windows == windows,
        tcp_groups_to(req, windows, n)[0].stream_steps == crate::sweep::steps_or(
            req.tcp_streams@,
            1,
        ),
        forall|i: int|
            0 < i <= n ==> {
                &&& (#[trigger] tcp_groups_to(req, windows, n)[i]).windows == cleaned(
                    texts(req.tcp_groups@[i - 1].windows@),
                )
                &&& tcp_groups_to(req, windows, n)[i].stream_steps == crate::sweep::steps_or(
                    req.tcp_groups@[i - 1].streams@,
                    1,
                )
            },
    decreases n,
{
    if n > 0 {
        lemma_tcp_groups(req, windows, n - 1);
    }
}

proof fn lemma_tcp_group(state: UiState, rd: Readings, req: RunRequest, group: usize, streams: u32)
    ensures
        ({
            let found = group_at(sweeps_of(req, base_config(state, rd, req)).tcp_groups, group);
            &&& found.windows == tcp_windows_of(state, req, group)
            &&& found.stream_steps.contains(streams) <==> is_step(
                tcp_streams_of(req, group),
                1,
                streams,
            )
        }),
{
    lemma_tcp_groups(
        req,
        base_config(state, rd, req).iperf.tcp_windows,
        req.tcp_groups@.len() as int,
    );
    lemma_steps_are_as_given(tcp_streams_of(req, group), 1, streams);
}

/// The name of a row's tests.
pub open spec fn named_for(row: int) -> Seq<char> {
    "ui-"@ + decimal((row + 1) as nat)
}

/// What a group adds to a name: nothing for the default one.
pub open spec fn group_tag(group: usize) -> Seq<char> {
    if group == 0 {
        Seq::empty()
    } else {
        "-g"@ + decimal((group + 1) as nat)
    }
}

/// A TCP test of a row: in all its directions, with the windows of a group that the row runs and one
/// of the group's numbers of streams.
pub open spec fn is_tcp_test(
    t: TestSpecView,
    state: UiState,
    req: RunRequest,
    row: int,
    group: usize,
    streams: u32,
) -> bool {
    let pair = req.pairs@[row];
    &&& texts(pair.transports@).contains("tcp"@)
    &&& runs_group(pair.tcp_groups@, group)
    &&& is_step(tcp_streams_of(req, group), 1, streams)
    &&& t.kinds == seq!["iperf"@]
    &&& t.transports == seq!["tcp"@]
    &&& t.direction == texts(pair.directions@)
    &&& t.tcp_streams == Some(streams)
    &&& t.tcp_windows == Some(tcp_windows_of(state, req, group))
    &&& t.udp_streams is None
    &&& t.udp_profiles is None
    &&& t.ping_count is None
    &&& t.ping_payload_sizes is None
    &&& t.name == named_for(row) + "-tcp"@ + group_tag(group) + "-P"@ + decimal(streams as nat)
}

/// A direction's load comes from a pinned interface: it sends from one, or both do.
pub open spec fn sent_by_pinned(req: RunRequest, pair: PairSelection, dir: Seq<char>) -> bool {
    if dir == "ab"@ {
        is_pinned(req.nic_policies@, pair.src@)
    } else if dir == "ba"@ {
        is_pinned(req.nic_policies@, pair.dst@)
    } else {
        dir == "bidir"@ && is_pinned(req.nic_policies@, pair.src@) && is_pinned(
            req.nic_policies@,
            pair.dst@,
        )
    }
}

/// The bandwidth that the first policy of either end gives which gives one; one megabit without.
pub open spec fn is_pinned_bandwidth(
    policies: Seq<NicPolicySelection>,
    src: Seq<char>,
    dst: Seq<char>,
    bandwidth: Seq<char>,
) -> bool {
    ||| exists|i: int|
        0 <= i < policies.len() && ((#[trigger] policies[i]).endpoint@ == src
            || policies[i].endpoint@ == dst) && !blank(policies[i].udp_bandwidth@) && bandwidth
            == trimmed(policies[i].udp_bandwidth@) && (forall|j: int|
            0 <= j < i && ((#[trigger] policies[j]).endpoint@ == src || policies[j].endpoint@
                == dst) ==> blank(policies[j].udp_bandwidth@))
    ||| bandwidth == "1m"@ && forall|j: int|
        0 <= j < policies.len() && ((#[trigger] policies[j]).endpoint@ == src
            || policies[j].endpoint@ == dst) ==> blank(policies[j].udp_bandwidth@)
}

/// The texts of a UDP group: bandwidths, lengths and windows.
pub open spec fn udp_texts_of(req: RunRequest, group: usize) -> (
    Seq<Seq<char>>,
    Seq<Seq<char>>,
    Seq<Seq<char>>,
) {
    if 0 < group <= req.udp_groups@.len() {
        let own = req.udp_groups@[group - 1];
        (
            cleaned(texts(own.bandwidths@)),
            cleaned(texts(own.lengths@)),
            cleaned(texts(own.windows@)),
        )
    } else {
        (
            cleaned(texts(req.udp_bandwidths@)),
            cleaned(texts(req.udp_lengths@)),
            cleaned(texts(req.udp_windows@)),
        )
    }
}

/// How many streams a UDP group runs, one at least.
pub open spec fn udp_streams_of(req: RunRequest, group: usize) -> u32 {
    let given = if 0 < group <= req.udp_groups@.len() {
        req.udp_groups@[group - 1].streams
    } else {
        req.udp_streams
    };
    if given == 0 {
        1
    } else {
        given
    }
}

/// A UDP test of a row: of a group that the row runs, in the directions whose sender is pinned or in
/// those whose sender is not. The first run the pinned bandwidth, the others those of the group or,
/// where the default group gives none, the loads of the configuration; all with each length and each
/// window of the group.
pub open spec fn is_udp_test(
    t: TestSpecView,
    loads: Seq<UdpProfileView>,
    req: RunRequest,
    row: int,
    group: usize,
    pinned: bool,
) -> bool {
    let pair = req.pairs@[row];
    let (bandwidths, lengths, windows) = udp_texts_of(req, group);
    &&& texts(pair.transports@).contains("udp"@)
    &&& runs_group(pair.udp_groups@, group)
    &&& t.kinds == seq!["iperf"@]
    &&& t.transports == seq!["udp"@]
    &&& t.direction.len() > 0
    &&& forall|x: Seq<char>| #[trigger]
        t.direction.contains(x) <==> texts(pair.directions@).contains(x) && sent_by_pinned(
            req,
            pair,
            x,
        ) == pinned
    &&& t.udp_streams == Some(udp_streams_of(req, group))
    &&& t.udp_profiles is Some
    &&& pinned ==> exists|bandwidth: Seq<char>| #[trigger]
        is_pinned_bandwidth(req.nic_policies@, pair.src@, pair.dst@, bandwidth) && forall|
            load: UdpProfileView,
        | #[trigger]
            t.udp_profiles->0.contains(load) <==> load.bandwidth == bandwidth && on_axis(
                lengths,
                load.length,
            ) && on_axis(windows, load.window)
    &&& !pinned && (bandwidths.len() > 0 || 0 < group <= req.udp_groups@.len()) ==> forall|
        load: UdpProfileView,
    | #[trigger]
        t.udp_profiles->0.contains(load) <==> bandwidths.contains(load.bandwidth) && on_axis(
            lengths,
            load.length,
        ) && on_axis(windows, load.window)
    &&& !pinned && bandwidths.len() == 0 && !(0 < group <= req.udp_groups@.len())
        ==> t.udp_profiles == Some(loads)
    &&& t.tcp_streams is None
    &&& t.tcp_windows is None
    &&& t.ping_count is None
    &&& t.ping_payload_sizes is None
    &&& t.name == named_for(row) + "-udp"@ + group_tag(group) + if pinned {
        "-pinned"@
    } else {
        Seq::empty()
    }
}

/// The ping test of a row: as often and with the sizes that the request says, where it says any.
pub open spec fn is_ping_test(t: TestSpecView, req: RunRequest, row: int) -> bool {
    let pair = req.pairs@[row];
    let sizes = deduped(nonzero(req.ping_payload_sizes@));
    &&& texts(pair.transports@).contains("ping"@)
    &&& t.kinds == seq!["ping"@]
    &&& t.transports.len() == 0
    &&& t.direction == texts(pair.directions@)
    &&& req.ping_count > 0 ==> t.ping_count == Some(req.ping_count)
    &&& req.ping_count == 0 ==> t.ping_count is None
    &&& sizes.len() > 0 ==> t.ping_payload_sizes == Some(sizes)
    &&& sizes.len() == 0 ==> t.ping_payload_sizes is None
    &&& t.tcp_streams is None
    &&& t.tcp_windows is None
    &&& t.udp_streams is None
    &&& t.udp_profiles is None
    &&& t.name == named_for(row) + "-ping"@
}

/// A test comes from a row of the matrix.
pub open spec fn comes_from_row(
    t: TestSpecView,
    state: UiState,
    rd: Readings,
    req: RunRequest,
    row: int,
) -> bool {
    let loads = base_config(state, rd, req).iperf.udp_profiles;
    &&& speaks_for(t, rd, req.pairs@[row], req.duration)
    &&& {
        ||| exists|group: usize, streams: u32| #[trigger]
            is_tcp_test(t, state, req, row, group, streams)
        ||| exists|group: usize, pinned: bool| #[trigger]
            is_udp_test(t, loads, req, row, group, pinned)
        ||| is_ping_test(t, req, row)
    }
}

proof fn lemma_group_is_run(groups: Seq<usize>, group: usize)
    ensures
        chosen_groups(groups).contains(group) <==> runs_group(groups, group),
{
    if groups.len() > 0 {
        lemma_deduped(groups);
    } else {
        let one = chosen_groups(groups);
        assert(one[0] == 0);
    }
}

proof fn lemma_tcp_tests_come_from_groups(
    rd: Readings,
    idx: usize,
    pair: PairSelection,
    sweeps: SweepsView,
    n: int,
)
    requires
        0 <= n <= chosen_groups(pair.tcp_groups@).len(),
    ensures
        forall|j: int|
            0 <= j < tcp_tests_to(rd, idx, pair, sweeps, n).len() ==> exists|
                group: usize,
                streams: u32,
            |
                chosen_groups(pair.tcp_groups@).contains(group) && group_at(
                    sweeps.tcp_groups,
                    group,
                ).stream_steps.contains(streams) && #[trigger] tcp_tests_to(
                    rd,
                    idx,
                    pair,
                    sweeps,
                    n,
                )[j] == #[trigger] tcp_test(rd, idx, pair, sweeps, group, streams),
        forall|g: int, streams: u32|
            0 <= g < n && #[trigger] group_at(
                sweeps.tcp_groups,
                chosen_groups(pair.tcp_groups@)[g],
            ).stream_steps.contains(streams) ==> tcp_tests_to(rd, idx, pair, sweeps, n).contains(
                tcp_test(rd, idx, pair, sweeps, chosen_groups(pair.tcp_groups@)[g], streams),
            ),
    decreases n,
{
    if n > 0 {
        lemma_tcp_tests_come_from_groups(rd, idx, pair, sweeps, n - 1);
        let before = tcp_tests_to(rd, idx, pair, sweeps, n - 1);
        let last = chosen_groups(pair.tcp_groups@)[n - 1];
        let steps = group_at(sweeps.tcp_groups, last).stream_steps;
        lemma_tcp_group_tests(rd, idx, pair, sweeps, last, steps.len() as int);
        let more = tcp_group_tests(rd, idx, pair, sweeps, last);
        let all = tcp_tests_to(rd, idx, pair, sweeps, n);
        assert(all == before + more);
        assert forall|j: int| 0 <= j < all.len() implies exists|group: usize, streams: u32|
            chosen_groups(pair.tcp_groups@).contains(group) && group_at(
                sweeps.tcp_groups,
                group,
            ).stream_steps.contains(streams) && #[trigger] all[j] == #[trigger] tcp_test(
                rd,
                idx,
                pair,
                sweeps,
                group,
                streams,
            ) by {
            if j < before.len() {
                assert(all[j] == before[j]);
                let (group, streams) = choose|group: usize, streams: u32|
                    chosen_groups(pair.tcp_groups@).contains(group) && group_at(
                        sweeps.tcp_groups,
                        group,
                    ).stream_steps.contains(streams) && before[j] == #[trigger] tcp_test(
                        rd,
                        idx,
                        pair,
                        sweeps,
                        group,
                        streams,
                    );
                assert(all[j] == tcp_test(rd, idx, pair, sweeps, group, streams));
            } else {
                let k = j - before.len();
                assert(all[j] == more[k]);
                assert(steps.contains(steps[k]));
                assert(all[j] == tcp_test(rd, idx, pair, sweeps, last, steps[k]));
            }
        }
        assert forall|g: int, streams: u32|
            0 <= g < n && #[trigger] group_at(
                sweeps.tcp_groups,
                chosen_groups(pair.tcp_groups@)[g],
            ).stream_steps.contains(streams) implies all.contains(
            tcp_test(rd, idx, pair, sweeps, chosen_groups(pair.tcp_groups@)[g], streams),
        ) by {
            let t = tcp_test(rd, idx, pair, sweeps, chosen_groups(pair.tcp_groups@)[g], streams);
            if g < n - 1 {
                assert(before.contains(t));
                let k = choose|k: int| 0 <= k < before.len() && before[k] == t;
                assert(all[k] == t);
            } else {
                let k = choose|k: int| 0 <= k < steps.len() && steps[k] == streams;
                assert(more[k] == t);
                assert(all[before.len() + k] == t);
            }
        }
    }
}

proof fn lemma_udp_tests_come_from_groups(
    rd: Readings,
    idx: usize,
    pair: PairSelection,
    req: RunRequest,
    sweeps: SweepsView,
    n: int,
)
    requires
        0 <= n <= chosen_groups(pair.udp_groups@).len(),
    ensures
        forall|j: int|
            0 <= j < udp_tests_to(rd, idx, pair, req, sweeps, n).len() ==> exists|group: usize|
                chosen_groups(pair.udp_groups@).contains(group) && (#[trigger] udp_group_tests(
                    rd,
                    idx,
                    pair,
                    req,
                    sweeps,
                    group,
                )).contains(#[trigger] udp_tests_to(rd, idx, pair, req, sweeps, n)[j]),
        forall|g: int, t: TestSpecView|
            0 <= g < n && #[trigger] udp_group_tests(
                rd,
                idx,
                pair,
                req,
                sweeps,
                chosen_groups(pair.udp_groups@)[g],
            ).contains(t) ==> udp_tests_to(rd, idx, pair, req, sweeps, n).contains(t),
    decreases n,
{
    if n > 0 {
        lemma_udp_tests_come_from_groups(rd, idx, pair, req, sweeps, n - 1);
        let before = udp_tests_to(rd, idx, pair, req, sweeps, n - 1);
        let last = chosen_groups(pair.udp_groups@)[n - 1];
        let more = udp_group_tests(rd, idx, pair, req, sweeps, last);
        let all = udp_tests_to(rd, idx, pair, req, sweeps, n);
        assert(all == before + more);
        assert forall|j: int| 0 <= j < all.len() implies exists|group: usize|
            chosen_groups(pair.udp_groups@).contains(group) && (#[trigger] udp_group_tests(
                rd,
                idx,
                pair,
                req,
                sweeps,
                group,
            )).contains(#[trigger] all[j]) by {
            if j < before.len() {
                assert(all[j] == before[j]);
            } else {
                assert(all[j] == more[j - before.len()]);
                assert(udp_group_tests(rd, idx, pair, req, sweeps, last).contains(all[j]));
            }
        }
        assert forall|g: int, t: TestSpecView|
            0 <= g < n && #[trigger] udp_group_tests(
                rd,
                idx,
                pair,
                req,
                sweeps,
                chosen_groups(pair.udp_groups@)[g],
            ).contains(t) implies all.contains(t) by {
            if g < n - 1 {
                assert(before.contains(t));
                let k = choose|k: int| 0 <= k < before.len() && before[k] == t;
                assert(all[k] == t);
            } else {
                let k = choose|k: int| 0 <= k < more.len() && more[k] == t;
                assert(all[before.len() + k] == t);
            }
        }
    }
}

proof fn lemma_udp_groups(req: RunRequest, loads: Seq<UdpProfileView>, n: int)
    requires
        0 <= n <= req.udp_groups@.len(),
    ensures
        udp_groups_to(req, loads, n).len() == n + 1,
        udp_groups_to(req, loads, n)[0] == udp_groups_to(req, loads, 0)[0],
        forall|i: int|
            0 < i <= n ==> #[trigger] udp_groups_to(req, loads, n)[i] == resolved_udp(
                req.udp_groups@[i - 1],
            ),
    decreases n,
{
    if n > 0 {
        lemma_udp_groups(req, loads, n - 1);
    }
}

proof fn lemma_pinned_bandwidth(
    policies: Seq<NicPolicySelection>,
    src: Seq<char>,
    dst: Seq<char>,
    i: int,
)
    requires
        0 <= i <= policies.len(),
        forall|j: int|
            0 <= j < i && ((#[trigger] policies[j]).endpoint@ == src || policies[j].endpoint@
                == dst) ==> blank(policies[j].udp_bandwidth@),
    ensures
        is_pinned_bandwidth(policies, src, dst, fixed_bandwidth(policies, src, dst, "1m"@, i)),
    decreases policies.len() - i,
{
    if i < policies.len() {
        if (policies[i].endpoint@ == src || policies[i].endpoint@ == dst) && !blank(
            policies[i].udp_bandwidth@,
        ) {
            assert(policies[i].endpoint@ == src || policies[i].endpoint@ == dst);
        } else {
            lemma_pinned_bandwidth(policies, src, dst, i + 1);
        }
    }
}

/// What the matrix makes of a UDP group of a row.
proof fn lemma_udp_group_tests_are_udp_tests(
    state: UiState,
    rd: Readings,
    req: RunRequest,
    row: int,
    group: usize,
    j: int,
)
    requires
        0 <= row < req.pairs@.len(),
        req.pairs@.len() <= usize::MAX,
        texts(req.pairs@[row].transports@).contains("udp"@),
        runs_group(req.pairs@[row].udp_groups@, group),
        0 <= j < udp_group_tests(
            rd,
            row as usize,
            req.pairs@[row],
            req,
            sweeps_of(req, base_config(state, rd, req)),
            group,
        ).len(),
    ensures
        ({
            let pair = req.pairs@[row];
            let sweeps = sweeps_of(req, base_config(state, rd, req));
            let t = with_wifi_targets(
                udp_group_tests(rd, row as usize, pair, req, sweeps, group)[j],
                rd,
                req,
                pair.src@,
                pair.dst@,
            );
            let loads = base_config(state, rd, req).iperf.udp_profiles;
            &&& speaks_for(t, rd, pair, sweeps.duration)
            &&& exists|pinned: bool| #[trigger] is_udp_test(t, loads, req, row, group, pinned)
        }),
{
    let pair = req.pairs@[row];
    let cfg = base_config(state, rd, req);
    let loads = cfg.iperf.udp_profiles;
    let sweeps = sweeps_of(req, cfg);
    let udp = group_at(sweeps.udp_groups, group);
    lemma_udp_groups(req, loads, req.udp_groups@.len() as int);
    let (bandwidths, lengths, windows) = udp_texts_of(req, group);
    let further = 0 < group <= req.udp_groups@.len();
    assert(udp.lengths == lengths);
    assert(udp.windows == windows);
    assert(udp.bandwidths == bandwidths);
    assert(udp.streams == udp_streams_of(req, group));
    assert(udp.verbatim == if !further && bandwidths.len() == 0 {
        Some(loads)
    } else {
        None::<Seq<UdpProfileView>>
    });
    let dirs = texts(pair.directions@);
    let (sp, dp) = (
        sweeps.pinned_senders.contains(pair.src@),
        sweeps.pinned_senders.contains(pair.dst@),
    );
    lemma_pinned_are_those_with_a_bandwidth(req.nic_policies@, pair.src@);
    lemma_pinned_are_those_with_a_bandwidth(req.nic_policies@, pair.dst@);
    lemma_directions_where(dirs, sp, dp, true, dirs.len() as int);
    lemma_directions_where(dirs, sp, dp, false, dirs.len() as int);
    assert(dirs.take(dirs.len() as int) =~= dirs);
    let tests = udp_group_tests(rd, row as usize, pair, req, sweeps, group);
    let plain = tests[j];
    let pinned = directions_where(dirs, sp, dp, true).len() > 0 && j == 0;
    let t = with_wifi_targets(plain, rd, req, pair.src@, pair.dst@);
    let head = crate::plan::row_name(row as usize) + "-udp"@ + group_suffix(group);
    let bandwidth = fixed_bandwidth(req.nic_policies@, pair.src@, pair.dst@, "1m"@, 0);
    lemma_pinned_bandwidth(req.nic_policies@, pair.src@, pair.dst@, 0);
    if pinned {
        assert(plain.udp_profiles == Some(crate::sweep::udp_cross(bandwidth, lengths, windows)));
        lemma_base_speaks_for_the_row(
            rd,
            req,
            pair,
            sweeps.duration,
            head + "-pinned"@,
            seq!["udp"@],
            plain,
        );
        assert forall|load: UdpProfileView| #[trigger]
            t.udp_profiles->0.contains(load) <==> load.bandwidth == bandwidth && on_axis(
                lengths,
                load.length,
            ) && on_axis(windows, load.window) by {
            lemma_cross_keeps_the_bandwidth(bandwidth, lengths, windows, load);
        }
        assert(is_pinned_bandwidth(req.nic_policies@, pair.src@, pair.dst@, bandwidth));
    } else {
        assert(plain.udp_profiles == Some(udp.loads()));
        lemma_base_speaks_for_the_row(
            rd,
            req,
            pair,
            sweeps.duration,
            head,
            seq!["udp"@],
            plain,
        );
        if bandwidths.len() > 0 || further {
            assert forall|load: UdpProfileView| #[trigger]
                t.udp_profiles->0.contains(load) <==> bandwidths.contains(load.bandwidth)
                    && on_axis(lengths, load.length) && on_axis(windows, load.window) by {
                lemma_sweep_crosses_its_axes(bandwidths, lengths, windows, load);
            }
        }
        assert(head =~= head + Seq::<char>::empty());
    }
    assert forall|x: Seq<char>| #[trigger]
        t.direction.contains(x) <==> texts(pair.directions@).contains(x) && sent_by_pinned(
            req,
            pair,
            x,
        ) == pinned by {
        assert(directions_where(dirs, sp, dp, pinned).contains(x) <==> dirs.contains(x)
            && direction_pinned(x, sp, dp) == pinned);
    }
    assert(is_udp_test(t, loads, req, row, group, pinned));
}

/// Every test that the matrix makes of a row comes from it.
proof fn lemma_row_tests_come_from_the_row(
    state: UiState,
    rd: Readings,
    req: RunRequest,
    row: int,
    j: int,
)
    requires
        0 <= row < req.pairs@.len(),
        req.pairs@.len() <= usize::MAX,
        1 <= req.duration <= 86_400,
        0 <= j < row_tests(rd, req, sweeps_of(req, base_config(state, rd, req)), row).len(),
    ensures
        comes_from_row(
            row_tests(rd, req, sweeps_of(req, base_config(state, rd, req)), row)[j],
            state,
            rd,
            req,
            row,
        ),
{
    let pair = req.pairs@[row];
    let cfg = base_config(state, rd, req);
    let sweeps = sweeps_of(req, cfg);
    let idx = row as usize;
    let transports = texts(pair.transports@);
    let tcp = if transports.contains("tcp"@) {
        tcp_tests_to(rd, idx, pair, sweeps, chosen_groups(pair.tcp_groups@).len() as int)
    } else {
        Seq::empty()
    };
    let udp = if transports.contains("udp"@) {
        udp_tests_to(rd, idx, pair, req, sweeps, chosen_groups(pair.udp_groups@).len() as int)
    } else {
        Seq::empty()
    };
    let plain = pair_tests(rd, idx, pair, req, sweeps)[j];
    let t = row_tests(rd, req, sweeps, row)[j];
    assert(t == with_wifi_targets(plain, rd, req, pair.src@, pair.dst@));
    if j < tcp.len() {
        assert(plain == tcp[j]);
        lemma_tcp_tests_come_from_groups(
            rd,
            idx,
            pair,
            sweeps,
            chosen_groups(pair.tcp_groups@).len() as int,
        );
        let (group, streams) = choose|group: usize, streams: u32|
            chosen_groups(pair.tcp_groups@).contains(group) && group_at(
                sweeps.tcp_groups,
                group,
            ).stream_steps.contains(streams) && tcp[j] == #[trigger] tcp_test(
                rd,
                idx,
                pair,
                sweeps,
                group,
                streams,
            );
        lemma_tcp_test_is_one(state, rd, req, row, group, streams);
    } else if j < tcp.len() + udp.len() {
        assert(plain == udp[j - tcp.len()]);
        lemma_udp_tests_come_from_groups(
            rd,
            idx,
            pair,
            req,
            sweeps,
            chosen_groups(pair.udp_groups@).len() as int,
        );
        let group = choose|group: usize|
            chosen_groups(pair.udp_groups@).contains(group) && (#[trigger] udp_group_tests(
                rd,
                idx,
                pair,
                req,
                sweeps,
                group,
            )).contains(udp[j - tcp.len()]);
        lemma_group_is_run(pair.udp_groups@, group);
        let tests = udp_group_tests(rd, idx, pair, req, sweeps, group);
        let k = choose|k: int| 0 <= k < tests.len() && tests[k] == plain;
        lemma_udp_group_tests_are_udp_tests(state, rd, req, row, group, k);
    } else {
        assert(plain == ping_test(rd, idx, pair, req, sweeps));
        lemma_ping_test_is_one(state, rd, req, row);
    }
}

proof fn lemma_tcp_test_is_one(
    state: UiState,
    rd: Readings,
    req: RunRequest,
    row: int,
    group: usize,
    streams: u32,
)
    requires
        0 <= row < req.pairs@.len(),
        req.pairs@.len() <= usize::MAX,
        texts(req.pairs@[row].transports@).contains("tcp"@),
        chosen_groups(req.pairs@[row].tcp_groups@).contains(group),
        group_at(
            sweeps_of(req, base_config(state, rd, req)).tcp_groups,
            group,
        ).stream_steps.contains(streams),
    ensures
        ({
            let pair = req.pairs@[row];
            let sweeps = sweeps_of(req, base_config(state, rd, req));
            let t = with_wifi_targets(
                tcp_test(rd, row as usize, pair, sweeps, group, streams),
                rd,
                req,
                pair.src@,
                pair.dst@,
            );
            &&& speaks_for(t, rd, pair, sweeps.duration)
            &&& is_tcp_test(t, state, req, row, group, streams)
        }),
{
    let pair = req.pairs@[row];
    let sweeps = sweeps_of(req, base_config(state, rd, req));
    let plain = tcp_test(rd, row as usize, pair, sweeps, group, streams);
    lemma_group_is_run(pair.tcp_groups@, group);
    lemma_tcp_group(state, rd, req, group, streams);
    lemma_base_speaks_for_the_row(
        rd,
        req,
        pair,
        sweeps.duration,
        plain.name,
        seq!["tcp"@],
        plain,
    );
}

proof fn lemma_ping_test_is_one(state: UiState, rd: Readings, req: RunRequest, row: int)
    requires
        0 <= row < req.pairs@.len(),
        req.pairs@.len() <= usize::MAX,
        texts(req.pairs@[row].transports@).contains("ping"@),
    ensures
        ({
            let pair = req.pairs@[row];
            let sweeps = sweeps_of(req, base_config(state, rd, req));
            let t = with_wifi_targets(
                ping_test(rd, row as usize, pair, req, sweeps),
                rd,
                req,
                pair.src@,
                pair.dst@,
            );
            &&& speaks_for(t, rd, pair, sweeps.duration)
            &&& is_ping_test(t, req, row)
        }),
{
    let pair = req.pairs@[row];
    let sweeps = sweeps_of(req, base_config(state, rd, req));
    let plain = ping_test(rd, row as usize, pair, req, sweeps);
    lemma_base_speaks_for_the_row(
        rd,
        req,
        pair,
        sweeps.duration,
        plain.name,
        Seq::empty(),
        plain,
    );
}

proof fn lemma_accepted_rows_fit(state: UiState, rd: Readings, req: RunRequest)
    requires
        request_told(state, rd, req) is Ok,
    ensures
        1 <= req.duration <= 86_400,
        req.pairs@.len() <= usize::MAX,
{
    assert(req.pairs@.len() == req.pairs.len());
}

proof fn lemma_matrix_tests(
    state: UiState,
    rd: Readings,
    req: RunRequest,
    n: int,
    k: int,
)
    requires
        1 <= req.duration <= 86_400,
        req.pairs@.len() <= usize::MAX,
        0 <= n <= req.pairs@.len(),
        0 <= k < matrix_tests_to(rd, req, sweeps_of(req, base_config(state, rd, req)), n).len(),
    ensures
        exists|row: int|
            0 <= row < n && #[trigger] comes_from_row(
                matrix_tests_to(rd, req, sweeps_of(req, base_config(state, rd, req)), n)[k],
                state,
                rd,
                req,
                row,
            ),
    decreases n,
{
    let sweeps = sweeps_of(req, base_config(state, rd, req));
    if n > 0 {
        let before = matrix_tests_to(rd, req, sweeps, n - 1);
        let more = row_tests(rd, req, sweeps, n - 1);
        let all = matrix_tests_to(rd, req, sweeps, n);
        assert(all == before + more);
        if k < before.len() {
            lemma_matrix_tests(state, rd, req, n - 1, k);
            assert(all[k] == before[k]);
        } else {
            assert(all[k] == more[k - before.len()]);
            lemma_row_tests_come_from_the_row(state, rd, req, n - 1, k - before.len());
        }
    }
}

/// Every test of an accepted matrix comes from one of its rows: it has the ends, the thresholds and
/// the transport of the row and runs as long as the request says. Its total while both directions run
/// is the one that the row's own text for it says, whatever the texts of the directions say.
pub proof fn lemma_every_test_comes_from_a_row(
    state: UiState,
    rd: Readings,
    req: RunRequest,
    k: int,
)
    requires
        request_told(state, rd, req) is Ok,
        req.ui_plan is None,
        0 <= k < request_config(state, rd, req).tests.len(),
    ensures
        exists|row: int|
            0 <= row < req.pairs@.len() && #[trigger] comes_from_row(
                request_config(state, rd, req).tests[k],
                state,
                rd,
                req,
                row,
            ),
{
    lemma_accepted_rows_fit(state, rd, req);
    lemma_matrix_tests(state, rd, req, req.pairs@.len() as int, k);
}

proof fn lemma_row_is_in_the_matrix(
    rd: Readings,
    req: RunRequest,
    sweeps: SweepsView,
    row: int,
    n: int,
    j: int,
)
    requires
        0 <= row < n <= req.pairs@.len(),
        0 <= j < row_tests(rd, req, sweeps, row).len(),
    ensures
        matrix_tests_to(rd, req, sweeps, n).contains(row_tests(rd, req, sweeps, row)[j]),
    decreases n,
{
    let before = matrix_tests_to(rd, req, sweeps, n - 1);
    let more = row_tests(rd, req, sweeps, n - 1);
    let all = matrix_tests_to(rd, req, sweeps, n);
    assert(all == before + more);
    let t = row_tests(rd, req, sweeps, row)[j];
    if row < n - 1 {
        lemma_row_is_in_the_matrix(rd, req, sweeps, row, n - 1, j);
        let k = choose|k: int| 0 <= k < before.len() && before[k] == t;
        assert(all[k] == t);
    } else {
        assert(all[before.len() + j] == t);
    }
}

/// A row with TCP is run with every group that it asks for and every number of streams of the group.
pub proof fn lemma_every_tcp_step_runs(
    state: UiState,
    rd: Readings,
    req: RunRequest,
    row: int,
    group: usize,
    streams: u32,
)
    requires
        request_told(state, rd, req) is Ok,
        req.ui_plan is None,
        0 <= row < req.pairs@.len(),
        texts(req.pairs@[row].transports@).contains("tcp"@),
        runs_group(req.pairs@[row].tcp_groups@, group),
        is_step(tcp_streams_of(req, group), 1, streams),
    ensures
        exists|k: int|
            0 <= k < request_config(state, rd, req).tests.len() && #[trigger] is_tcp_test(
                request_config(state, rd, req).tests[k],
                state,
                req,
                row,
                group,
                streams,
            ),
{
    lemma_accepted_rows_fit(state, rd, req);
    let pair = req.pairs@[row];
    let idx = row as usize;
    let sweeps = sweeps_of(req, base_config(state, rd, req));
    let groups = chosen_groups(pair.tcp_groups@);
    lemma_group_is_run(pair.tcp_groups@, group);
    lemma_tcp_group(state, rd, req, group, streams);
    lemma_tcp_tests_come_from_groups(rd, idx, pair, sweeps, groups.len() as int);
    let g = choose|g: int| 0 <= g < groups.len() && groups[g] == group;
    assert(group_at(sweeps.tcp_groups, groups[g]).stream_steps.contains(streams));
    let tcp = tcp_tests_to(rd, idx, pair, sweeps, groups.len() as int);
    let t = tcp_test(rd, idx, pair, sweeps, group, streams);
    assert(tcp.contains(t));
    let j = choose|j: int| 0 <= j < tcp.len() && tcp[j] == t;
    let plain = pair_tests(rd, idx, pair, req, sweeps);
    assert(plain[j] == t);
    let all = row_tests(rd, req, sweeps, row);
    assert(all[j] == with_wifi_targets(t, rd, req, pair.src@, pair.dst@));
    lemma_tcp_test_is_one(state, rd, req, row, group, streams);
    lemma_row_is_in_the_matrix(rd, req, sweeps, row, req.pairs@.len() as int, j);
    let tests = request_config(state, rd, req).tests;
    let k = choose|k: int| 0 <= k < tests.len() && tests[k] == all[j];
    assert(is_tcp_test(tests[k], state, req, row, group, streams));
}

#[verifier::rlimit(60)]
#[verifier::spinoff_prover]
proof fn lemma_udp_direction_in_group(
    state: UiState,
    rd: Readings,
    req: RunRequest,
    row: int,
    group: usize,
    dir: Seq<char>,
) -> (at: int)
    requires
        request_told(state, rd, req) is Ok,
        req.ui_plan is None,
        0 <= row < req.pairs@.len(),
        texts(req.pairs@[row].transports@).contains("udp"@),
        runs_group(req.pairs@[row].udp_groups@, group),
        texts(req.pairs@[row].directions@).contains(dir),
    ensures
        ({
            let pair = req.pairs@[row];
            let cfg = base_config(state, rd, req);
            let tests = udp_group_tests(rd, row as usize, pair, req, sweeps_of(req, cfg), group);
            &&& 0 <= at < tests.len()
            &&& is_udp_test(
                with_wifi_targets(tests[at], rd, req, pair.src@, pair.dst@),
                cfg.iperf.udp_profiles,
                req,
                row,
                group,
                sent_by_pinned(req, pair, dir),
            )
        }),
{
    lemma_accepted_rows_fit(state, rd, req);
    let pair = req.pairs@[row];
    let idx = row as usize;
    let cfg = base_config(state, rd, req);
    let loads = cfg.iperf.udp_profiles;
    let sweeps = sweeps_of(req, cfg);
    let pinned = sent_by_pinned(req, pair, dir);
    lemma_group_is_run(pair.udp_groups@, group);
    let dirs = texts(pair.directions@);
    let (sp, dp) = (
        sweeps.pinned_senders.contains(pair.src@),
        sweeps.pinned_senders.contains(pair.dst@),
    );
    lemma_pinned_are_those_with_a_bandwidth(req.nic_policies@, pair.src@);
    lemma_pinned_are_those_with_a_bandwidth(req.nic_policies@, pair.dst@);
    lemma_directions_where(dirs, sp, dp, pinned, dirs.len() as int);
    assert(dirs.take(dirs.len() as int) =~= dirs);
    assert(directions_where(dirs, sp, dp, pinned).contains(dir));
    let tests = udp_group_tests(rd, idx, pair, req, sweeps, group);
    let at: int = if pinned {
        0
    } else {
        tests.len() - 1
    };
    assert(0 <= at < tests.len());
    assert(tests[at].direction == directions_where(dirs, sp, dp, pinned));
    lemma_udp_group_tests_are_udp_tests(state, rd, req, row, group, at);
    let t = with_wifi_targets(tests[at], rd, req, pair.src@, pair.dst@);
    let found = choose|p: bool| #[trigger] is_udp_test(t, loads, req, row, group, p);
    assert(t.direction.contains(dir));
    assert(found == pinned);
    at
}

/// A row with UDP runs each of its directions in every group that it asks for: those of pinned
/// senders apart from the others.
#[verifier::rlimit(60)]
#[verifier::spinoff_prover]
pub proof fn lemma_every_udp_direction_runs(
    state: UiState,
    rd: Readings,
    req: RunRequest,
    row: int,
    group: usize,
    dir: Seq<char>,
)
    requires
        request_told(state, rd, req) is Ok,
        req.ui_plan is None,
        0 <= row < req.pairs@.len(),
        texts(req.pairs@[row].transports@).contains("udp"@),
        runs_group(req.pairs@[row].udp_groups@, group),
        texts(req.pairs@[row].directions@).contains(dir),
    ensures
        exists|k: int|
            0 <= k < request_config(state, rd, req).tests.len() && #[trigger] is_udp_test(
                request_config(state, rd, req).tests[k],
                base_config(state, rd, req).iperf.udp_profiles,
                req,
                row,
                group,
                sent_by_pinned(req, req.pairs@[row], dir),
            ),
{
    lemma_accepted_rows_fit(state, rd, req);
    let pair = req.pairs@[row];
    let idx = row as usize;
    let cfg = base_config(state, rd, req);
    let loads = cfg.iperf.udp_profiles;
    let sweeps = sweeps_of(req, cfg);
    let groups = chosen_groups(pair.udp_groups@);
    let pinned = sent_by_pinned(req, pair, dir);
    lemma_group_is_run(pair.udp_groups@, group);
    let g = choose|g: int| 0 <= g < groups.len() && groups[g] == group;
    let at = lemma_udp_direction_in_group(state, rd, req, row, group, dir);
    let tests = udp_group_tests(rd, idx, pair, req, sweeps, group);
    let t = with_wifi_targets(tests[at], rd, req, pair.src@, pair.dst@);
    lemma_udp_tests_come_from_groups(rd, idx, pair, req, sweeps, groups.len() as int);
    assert(udp_group_tests(rd, idx, pair, req, sweeps, groups[g]).contains(tests[at]));
    let udp = udp_tests_to(rd, idx, pair, req, sweeps, groups.len() as int);
    assert(udp.contains(tests[at]));
    let u = choose|u: int| 0 <= u < udp.len() && udp[u] == tests[at];
    let tcp = if texts(pair.transports@).contains("tcp"@) {
        tcp_tests_to(rd, idx, pair, sweeps, chosen_groups(pair.tcp_groups@).len() as int)
    } else {
        Seq::empty()
    };
    let plain = pair_tests(rd, idx, pair, req, sweeps);
    let j = tcp.len() + u;
    assert(plain[j] == tests[at]);
    let all = row_tests(rd, req, sweeps, row);
    assert(all[j] == t);
    lemma_row_is_in_the_matrix(rd, req, sweeps, row, req.pairs@.len() as int, j);
    let every = request_config(state, rd, req).tests;
    let k = choose|k: int| 0 <= k < every.len() && every[k] == t;
    assert(is_udp_test(every[k], loads, req, row, group, pinned));
}

/// A row with pings is pinged.
pub proof fn lemma_every_ping_runs(state: UiState, rd: Readings, req: RunRequest, row: int)
    requires
        request_told(state, rd, req) is Ok,
        req.ui_plan is None,
        0 <= row < req.pairs@.len(),
        texts(req.pairs@[row].transports@).contains("ping"@),
    ensures
        exists|k: int|
            0 <= k < request_config(state, rd, req).tests.len() && #[trigger] is_ping_test(
                request_config(state, rd, req).tests[k],
                req,
                row,
            ),
{
    lemma_accepted_rows_fit(state, rd, req);
    let pair = req.pairs@[row];
    let sweeps = sweeps_of(req, base_config(state, rd, req));
    let plain = pair_tests(rd, row as usize, pair, req, sweeps);
    let j = plain.len() - 1;
    assert(plain[j] == ping_test(rd, row as usize, pair, req, sweeps));
    lemma_ping_test_is_one(state, rd, req, row);
    let all = row_tests(rd, req, sweeps, row);
    lemma_row_is_in_the_matrix(rd, req, sweeps, row, req.pairs@.len() as int, j);
    let tests = request_config(state, rd, req).tests;
    let k = choose|k: int| 0 <= k < tests.len() && tests[k] == all[j];
    assert(is_ping_test(tests[k], req, row));
}

} // verus!
