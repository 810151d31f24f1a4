//! What the rows of a matrix run over UDP, before and after a round trip.
use vstd::prelude::*;
use vstd::string::*;
use crate::config::{Config, NicProfile, TestSpec, TestSpecView, UdpProfileView};
use crate::import::{
    axes_of, bandwidth_pinned, complete, count_or, empty_row, endpoint_spelled, finish_to, group_of,
    import_to, lengths_to, load_bandwidths, same_udp_run, state_with, tells_group, test_pinned,
    udp_group_index, windows_to, with_index, with_udp_group, ImportStateView, TcpGroupOutView,
    UdpGroupOutView,
};
use crate::model::{PairSelection, RunRequest, UiState};
use crate::plan::{
    base_config, chosen_groups, direction_pinned, directions_where, group_at, pair_tests, ping_test,
    resolved_udp, sweeps_of, tcp_tests_to, udp_group_tests, udp_groups_to, udp_tests_to,
    ResolvedUdpGroupView, SweepsView,
};
use crate::readings::Readings;
use crate::round_trip::rows::{
    bare, ends_spelled, has_ends, holds_matrix, is_row_test, lemma_chosen_groups,
    lemma_directions_meant, lemma_directions_where, lemma_finish, lemma_fold_ends, lemma_pair_tests,
    lemma_row_block, lemma_row_index, lemma_rows, lemma_shown, lemma_tcp_tests, lemma_tests_of_row,
    lemma_udp_group_tests, lemma_udp_tests, lemma_words, plain_row, row_tests, same_ends,
    same_members, sound_matrix, tests_before, word_of,
};
use crate::round_trip::tcp::{extends, lemma_with_index, numbers_known};
use crate::suite::directions_meant;
use crate::sweep::{choices, in_sweep, lemma_sweep_is_complete, udp_sweep};
use crate::text::{texts, views};
use crate::validate::cleaned;
use crate::validate_plan::{request_told, udp_groups_told};

verus! {

// ---------------------------------------------------------------------------
// UDP loads
// ---------------------------------------------------------------------------

pub(crate) proof fn lemma_choices(axis: Seq<Seq<char>>, x: Option<Seq<char>>)
    ensures
        choices(axis).contains(x) <==> match x {
            Some(value) => axis.contains(value),
            None => axis.len() == 0,
        },
{
    let all = choices(axis);
    if all.contains(x) {
        let k = choose|k: int| 0 <= k < all.len() && all[k] == x;
        if axis.len() > 0 {
            assert(axis[k] == x->0);
        }
    }
    match x {
        Some(value) => {
            if axis.contains(value) {
                let k = choose|k: int| 0 <= k < axis.len() && axis[k] == value;
                assert(all[k] == x);
            }
        },
        None => {
            if axis.len() == 0 {
                assert(all[0] == x);
            }
        },
    }
}

pub(crate) proof fn lemma_lengths(loads: Seq<UdpProfileView>, n: int, x: Seq<char>)
    requires
        0 <= n <= loads.len(),
    ensures
        lengths_to(loads, n).contains(x) <==> exists|k: int|
            0 <= k < n && (#[trigger] loads[k]).length == Some(x),
    decreases n,
{
    if n > 0 {
        lemma_lengths(loads, n - 1, x);
        let before = lengths_to(loads, n - 1);
        let after = lengths_to(loads, n);
        if before.contains(x) {
            let k = choose|k: int| 0 <= k < before.len() && before[k] == x;
            assert(after[k] == x);
            let j = choose|j: int| 0 <= j < n - 1 && (#[trigger] loads[j]).length == Some(x);
            assert(0 <= j < n && loads[j].length == Some(x));
        }
        if loads[n - 1].length == Some(x) {
            assert(after[before.len() as int] == x);
            assert(0 <= n - 1 < n);
        }
        if after.contains(x) && !before.contains(x) {
            let k = choose|k: int| 0 <= k < after.len() && after[k] == x;
            if k < before.len() {
                assert(before[k] == x);
            }
            assert(loads[n - 1].length == Some(x));
        }
        if exists|k: int| 0 <= k < n && (#[trigger] loads[k]).length == Some(x) {
            let k = choose|k: int| 0 <= k < n && (#[trigger] loads[k]).length == Some(x);
            if k < n - 1 {
                assert(0 <= k < n - 1 && loads[k].length == Some(x));
            }
        }
    }
}

pub(crate) proof fn lemma_windows(loads: Seq<UdpProfileView>, n: int, x: Seq<char>)
    requires
        0 <= n <= loads.len(),
    ensures
        windows_to(loads, n).contains(x) <==> exists|k: int|
            0 <= k < n && (#[trigger] loads[k]).window == Some(x),
    decreases n,
{
    if n > 0 {
        lemma_windows(loads, n - 1, x);
        let before = windows_to(loads, n - 1);
        let after = windows_to(loads, n);
        if before.contains(x) {
            let k = choose|k: int| 0 <= k < before.len() && before[k] == x;
            assert(after[k] == x);
            let j = choose|j: int| 0 <= j < n - 1 && (#[trigger] loads[j]).window == Some(x);
            assert(0 <= j < n && loads[j].window == Some(x));
        }
        if loads[n - 1].window == Some(x) {
            assert(after[before.len() as int] == x);
            assert(0 <= n - 1 < n);
        }
        if after.contains(x) && !before.contains(x) {
            let k = choose|k: int| 0 <= k < after.len() && after[k] == x;
            if k < before.len() {
                assert(before[k] == x);
            }
            assert(loads[n - 1].window == Some(x));
        }
        if exists|k: int| 0 <= k < n && (#[trigger] loads[k]).window == Some(x) {
            let k = choose|k: int| 0 <= k < n && (#[trigger] loads[k]).window == Some(x);
            if k < n - 1 {
                assert(0 <= k < n - 1 && loads[k].window == Some(x));
            }
        }
    }
}

pub(crate) proof fn lemma_none_or_some(axis: Seq<Seq<char>>)
    ensures
        choices(axis).len() > 0,
        axis.len() == 0 ==> choices(axis)[0] is None,
        axis.len() > 0 ==> choices(axis)[0] == Some(axis[0]),
{
}

/// The axes of a sweep have the values that it was made of.
pub(crate) proof fn lemma_axes_of_sweep(
    bandwidths: Seq<Seq<char>>,
    lengths: Seq<Seq<char>>,
    windows: Seq<Seq<char>>,
    x: Seq<char>,
)
    requires
        bandwidths.len() > 0,
    ensures
        ({
            let (b, l, w) = axes_of(udp_sweep(bandwidths, lengths, windows));
            &&& b.contains(x) <==> bandwidths.contains(x)
            &&& l.contains(x) <==> lengths.contains(x)
            &&& w.contains(x) <==> windows.contains(x)
        }),
{
    let loads = udp_sweep(bandwidths, lengths, windows);
    let count = loads.len() as int;
    lemma_none_or_some(lengths);
    lemma_none_or_some(windows);
    let l0 = choices(lengths)[0];
    let w0 = choices(windows)[0];
    assert(choices(lengths).contains(l0) && choices(windows).contains(w0));
    assert(bandwidths.contains(bandwidths[0]));
    crate::sweep::lemma_deduped(load_bandwidths(loads));
    crate::sweep::lemma_deduped(lengths_to(loads, count));
    crate::sweep::lemma_deduped(windows_to(loads, count));
    lemma_lengths(loads, count, x);
    lemma_windows(loads, count, x);
    let all = load_bandwidths(loads);
    // Bandwidths.
    if all.contains(x) {
        let k = choose|k: int| 0 <= k < all.len() && all[k] == x;
        assert(loads.contains(loads[k]));
        lemma_sweep_is_complete(bandwidths, lengths, windows, loads[k]);
    }
    if bandwidths.contains(x) {
        let load = UdpProfileView { bandwidth: x, length: l0, window: w0 };
        lemma_sweep_is_complete(bandwidths, lengths, windows, load);
        let k = choose|k: int| 0 <= k < loads.len() && loads[k] == load;
        assert(all[k] == x);
    }
    // Lengths.
    if exists|k: int| 0 <= k < count && (#[trigger] loads[k]).length == Some(x) {
        let k = choose|k: int| 0 <= k < count && (#[trigger] loads[k]).length == Some(x);
        assert(loads.contains(loads[k]));
        lemma_sweep_is_complete(bandwidths, lengths, windows, loads[k]);
        lemma_choices(lengths, Some(x));
    }
    if lengths.contains(x) {
        let load = UdpProfileView { bandwidth: bandwidths[0], length: Some(x), window: w0 };
        lemma_choices(lengths, Some(x));
        lemma_sweep_is_complete(bandwidths, lengths, windows, load);
        let k = choose|k: int| 0 <= k < loads.len() && loads[k] == load;
        assert(loads[k].length == Some(x));
    }
    // Windows.
    if exists|k: int| 0 <= k < count && (#[trigger] loads[k]).window == Some(x) {
        let k = choose|k: int| 0 <= k < count && (#[trigger] loads[k]).window == Some(x);
        assert(loads.contains(loads[k]));
        lemma_sweep_is_complete(bandwidths, lengths, windows, loads[k]);
        lemma_choices(windows, Some(x));
    }
    if windows.contains(x) {
        let load = UdpProfileView { bandwidth: bandwidths[0], length: l0, window: Some(x) };
        lemma_choices(windows, Some(x));
        lemma_sweep_is_complete(bandwidths, lengths, windows, load);
        let k = choose|k: int| 0 <= k < loads.len() && loads[k] == load;
        assert(loads[k].window == Some(x));
    }
}

pub(crate) proof fn lemma_same_choices(a: Seq<Seq<char>>, b: Seq<Seq<char>>, x: Option<Seq<char>>)
    requires
        same_members(a, b),
    ensures
        choices(a).contains(x) <==> choices(b).contains(x),
{
    lemma_choices(a, x);
    lemma_choices(b, x);
    if a.len() > 0 {
        assert(a.contains(a[0]));
        assert(b.contains(a[0]));
    }
    if b.len() > 0 {
        assert(b.contains(b[0]));
        assert(a.contains(b[0]));
    }
    if let Some(value) = x {
        assert(a.contains(value) <==> b.contains(value));
    }
}

/// The loads that axes make are all combinations of their values: none is lost when a group is read
/// back from its loads.
pub proof fn lemma_sweeps_are_complete(
    bandwidths: Seq<Seq<char>>,
    lengths: Seq<Seq<char>>,
    windows: Seq<Seq<char>>,
)
    requires
        bandwidths.len() > 0,
    ensures
        complete(udp_sweep(bandwidths, lengths, windows)),
{
    let loads = udp_sweep(bandwidths, lengths, windows);
    let (b, l, w) = axes_of(loads);
    assert forall|x: Seq<char>| #[trigger] b.contains(x) <==> bandwidths.contains(x) by {
        lemma_axes_of_sweep(bandwidths, lengths, windows, x);
    }
    assert forall|x: Seq<char>| #[trigger] l.contains(x) <==> lengths.contains(x) by {
        lemma_axes_of_sweep(bandwidths, lengths, windows, x);
    }
    assert forall|x: Seq<char>| #[trigger] w.contains(x) <==> windows.contains(x) by {
        lemma_axes_of_sweep(bandwidths, lengths, windows, x);
    }
    assert forall|load: UdpProfileView| #[trigger] loads.contains(load) <==> in_sweep(
        b,
        l,
        w,
        load,
    ) by {
        lemma_sweep_is_complete(bandwidths, lengths, windows, load);
        lemma_same_choices(l, lengths, load.length);
        lemma_same_choices(w, windows, load.window);
        assert(b.contains(load.bandwidth) <==> bandwidths.contains(load.bandwidth));
    }
    lemma_none_or_some(lengths);
    lemma_none_or_some(windows);
    let first = UdpProfileView {
        bandwidth: bandwidths[0],
        length: choices(lengths)[0],
        window: choices(windows)[0],
    };
    assert(bandwidths.contains(bandwidths[0]) && choices(lengths).contains(first.length)
        && choices(windows).contains(first.window));
    lemma_sweep_is_complete(bandwidths, lengths, windows, first);
    assert(loads.contains(first));
}

// ---------------------------------------------------------------------------
// UDP groups
// ---------------------------------------------------------------------------

/// The UDP group with a number: zero is the default group.
pub open spec fn udp_numbered(
    groups: Seq<UdpGroupOutView>,
    default_udp: UdpGroupOutView,
    number: usize,
) -> UdpGroupOutView {
    if number == 0 {
        default_udp
    } else {
        groups[number - 1]
    }
}

/// Whether a UDP group runs a load with a number of streams.
pub open spec fn group_runs_udp(group: UdpGroupOutView, load: UdpProfileView, streams: u32) -> bool {
    group.streams == streams && in_sweep(group.bandwidths, group.lengths, group.windows, load)
}

/// Whether one of the groups with these numbers runs a load with a number of streams.
pub open spec fn numbers_run_udp(
    groups: Seq<UdpGroupOutView>,
    default_udp: UdpGroupOutView,
    numbers: Seq<usize>,
    load: UdpProfileView,
    streams: u32,
) -> bool {
    exists|k: int|
        0 <= k < numbers.len() && group_runs_udp(
            udp_numbered(groups, default_udp, #[trigger] numbers[k]),
            load,
            streams,
        )
}

/// Whether a test says that its row runs a load with a number of streams.
pub open spec fn tells_load(
    profiles: Seq<NicProfile>,
    test: TestSpec,
    default_udp: UdpGroupOutView,
    load: UdpProfileView,
    streams: u32,
) -> bool {
    tells_group(profiles, test, test.src@, test.dst@) && group_runs_udp(
        group_of(
            views(test.udp_profiles->0@),
            count_or(test.udp_streams, default_udp.streams),
        ),
        load,
        streams,
    )
}

/// Whether the loads of every test that says which group it runs have a bandwidth.
pub open spec fn tells_bandwidth(profiles: Seq<NicProfile>, test: TestSpec) -> bool {
    tells_group(profiles, test, test.src@, test.dst@) ==> axes_of(
        views(test.udp_profiles->0@),
    ).0.len() > 0
}

pub(crate) proof fn lemma_udp_group_index(groups: Seq<UdpGroupOutView>, group: UdpGroupOutView, i: int)
    requires
        0 <= i <= groups.len(),
    ensures
        i <= udp_group_index(groups, group, i) <= groups.len(),
        udp_group_index(groups, group, i) < groups.len() ==> same_udp_run(
            groups[udp_group_index(groups, group, i)],
            group,
        ),
    decreases groups.len() - i,
{
    if i < groups.len() && !same_udp_run(groups[i], group) {
        lemma_udp_group_index(groups, group, i + 1);
    }
}

/// The group that is found or added for loads runs them.
pub(crate) proof fn lemma_with_udp_group(
    known: Seq<UdpGroupOutView>,
    default_udp: UdpGroupOutView,
    group: UdpGroupOutView,
    load: UdpProfileView,
    streams: u32,
)
    requires
        known.len() < usize::MAX,
        group.bandwidths.len() > 0,
    ensures
        ({
            let (after, number) = with_udp_group(known, default_udp, group);
            &&& extends(after, known)
            &&& after.len() <= known.len() + 1
            &&& number <= after.len()
            &&& group_runs_udp(udp_numbered(after, default_udp, number), load, streams)
                <==> group_runs_udp(group, load, streams)
        }),
{
    lemma_udp_group_index(known, group, 0);
}

pub(crate) proof fn lemma_udp_numbers_extend(
    longer: Seq<UdpGroupOutView>,
    shorter: Seq<UdpGroupOutView>,
    default_udp: UdpGroupOutView,
    numbers: Seq<usize>,
    load: UdpProfileView,
    streams: u32,
)
    requires
        extends(longer, shorter),
        numbers_known(shorter.len(), numbers),
    ensures
        numbers_known(longer.len(), numbers),
        numbers_run_udp(longer, default_udp, numbers, load, streams) <==> numbers_run_udp(
            shorter,
            default_udp,
            numbers,
            load,
            streams,
        ),
{
    assert forall|k: int| 0 <= k < numbers.len() implies #[trigger] numbers[k] <= longer.len()
        && udp_numbered(longer, default_udp, numbers[k]) == udp_numbered(
        shorter,
        default_udp,
        numbers[k],
    ) by {
        assert(numbers[k] <= shorter.len());
    }
    if numbers_run_udp(longer, default_udp, numbers, load, streams) {
        let k = choose|k: int|
            0 <= k < numbers.len() && group_runs_udp(
                udp_numbered(longer, default_udp, #[trigger] numbers[k]),
                load,
                streams,
            );
        assert(group_runs_udp(udp_numbered(shorter, default_udp, numbers[k]), load, streams));
    }
    if numbers_run_udp(shorter, default_udp, numbers, load, streams) {
        let k = choose|k: int|
            0 <= k < numbers.len() && group_runs_udp(
                udp_numbered(shorter, default_udp, #[trigger] numbers[k]),
                load,
                streams,
            );
        assert(group_runs_udp(udp_numbered(longer, default_udp, numbers[k]), load, streams));
    }
}

/// What one more number adds to what a row runs.
pub(crate) proof fn lemma_udp_number_added(
    groups: Seq<UdpGroupOutView>,
    default_udp: UdpGroupOutView,
    numbers: Seq<usize>,
    number: usize,
    load: UdpProfileView,
    streams: u32,
)
    ensures
        numbers_run_udp(groups, default_udp, with_index(numbers, number), load, streams)
            <==> numbers_run_udp(groups, default_udp, numbers, load, streams) || group_runs_udp(
            udp_numbered(groups, default_udp, number),
            load,
            streams,
        ),
{
    let after = with_index(numbers, number);
    lemma_with_index(numbers, number);
    if numbers_run_udp(groups, default_udp, after, load, streams) {
        let k = choose|k: int|
            0 <= k < after.len() && group_runs_udp(
                udp_numbered(groups, default_udp, #[trigger] after[k]),
                load,
                streams,
            );
        if k < numbers.len() {
            assert(numbers[k] == after[k]);
        } else {
            assert(after[k] == number);
        }
    }
    if numbers_run_udp(groups, default_udp, numbers, load, streams) {
        let k = choose|k: int|
            0 <= k < numbers.len() && group_runs_udp(
                udp_numbered(groups, default_udp, #[trigger] numbers[k]),
                load,
                streams,
            );
        assert(after[k] == numbers[k]);
    }
    if group_runs_udp(udp_numbered(groups, default_udp, number), load, streams) {
        let k = choose|k: int| 0 <= k < after.len() && after[k] == number;
        assert(after[k] == number);
    }
}

/// What one more test adds to the UDP groups and to those of its row.
pub(crate) proof fn lemma_state_with_udp(
    st: ImportStateView,
    profiles: Seq<NicProfile>,
    test: TestSpec,
    at: int,
    default_udp: UdpGroupOutView,
    default_tcp: TcpGroupOutView,
    load: UdpProfileView,
    streams: u32,
)
    requires
        0 <= at < st.rows.len(),
        st.groups.len() < usize::MAX,
        tells_bandwidth(profiles, test),
        numbers_known(st.groups.len(), st.rows[at].pair.udp_groups),
    ensures
        ({
            let after = state_with(
                st,
                profiles,
                test,
                test.src@,
                test.dst@,
                at,
                false,
                default_udp,
                default_tcp,
            );
            let numbers = after.rows[at].pair.udp_groups;
            &&& extends(after.groups, st.groups)
            &&& after.groups.len() <= st.groups.len() + 1
            &&& numbers_known(after.groups.len(), numbers)
            &&& numbers.len() > 0 <==> st.rows[at].pair.udp_groups.len() > 0 || tells_group(
                profiles,
                test,
                test.src@,
                test.dst@,
            )
            &&& numbers_run_udp(after.groups, default_udp, numbers, load, streams)
                <==> numbers_run_udp(
                st.groups,
                default_udp,
                st.rows[at].pair.udp_groups,
                load,
                streams,
            ) || tells_load(profiles, test, default_udp, load, streams)
        }),
{
    let before = st.rows[at].pair.udp_groups;
    if tells_group(profiles, test, test.src@, test.dst@) {
        let group = group_of(
            views(test.udp_profiles->0@),
            count_or(test.udp_streams, default_udp.streams),
        );
        lemma_with_udp_group(st.groups, default_udp, group, load, streams);
        let (groups, number) = with_udp_group(st.groups, default_udp, group);
        lemma_udp_numbers_extend(groups, st.groups, default_udp, before, load, streams);
        lemma_udp_number_added(groups, default_udp, before, number, load, streams);
        lemma_with_index(before, number);
    }
}

/// Whether row `at` of a state runs exactly the loads that tests from `from` to `to` tell of, and has
/// groups exactly where one of them tells of a group.
pub open spec fn row_matches_udp(
    st: ImportStateView,
    cfg: Config,
    default_udp: UdpGroupOutView,
    at: int,
    from: int,
    to: int,
    load: UdpProfileView,
    streams: u32,
) -> bool {
    let profiles = cfg.link_profiles.by_nic@;
    let numbers = st.rows[at].pair.udp_groups;
    &&& numbers_known(st.groups.len(), numbers)
    &&& numbers_run_udp(st.groups, default_udp, numbers, load, streams) <==> exists|j: int|
        from <= j < to && tells_load(
            profiles,
            #[trigger] cfg.tests@[j],
            default_udp,
            load,
            streams,
        )
    &&& (exists|j: int|
        from <= j < to && tells_group(
            profiles,
            #[trigger] cfg.tests@[j],
            cfg.tests@[j].src@,
            cfg.tests@[j].dst@,
        )) <==> numbers.len() > 0
}

/// What reading the first `n` tests of a new row does to its UDP groups.
pub(crate) proof fn lemma_row_block_udp(
    rd: Readings,
    cfg: Config,
    default_udp: UdpGroupOutView,
    default_tcp: TcpGroupOutView,
    src: Seq<char>,
    dst: Seq<char>,
    from: int,
    n: int,
    load: UdpProfileView,
    streams: u32,
)
    requires
        0 <= from,
        1 <= n,
        from + n <= cfg.tests@.len(),
        cfg.tests@.len() <= usize::MAX,
        endpoint_spelled(rd, src) == Some(src),
        endpoint_spelled(rd, dst) == Some(dst),
        forall|k: int|
            from <= k < from + n ==> (#[trigger] cfg.tests@[k]).src@ == src && cfg.tests@[k].dst@
                == dst,
        forall|k: int|
            from <= k < from + n ==> tells_bandwidth(
                cfg.link_profiles.by_nic@,
                #[trigger] cfg.tests@[k],
            ),
        ({
            let before = import_to(rd, cfg, default_udp, default_tcp, from);
            &&& before.groups.len() <= from
            &&& forall|k: int|
                0 <= k < before.rows.len() ==> !has_ends(#[trigger] before.rows[k], src, dst)
                    && !has_ends(before.rows[k], dst, src)
        }),
    ensures
        ({
            let before = import_to(rd, cfg, default_udp, default_tcp, from);
            let after = import_to(rd, cfg, default_udp, default_tcp, from + n);
            &&& extends(after.groups, before.groups)
            &&& after.groups.len() <= from + n
            &&& row_matches_udp(
                after,
                cfg,
                default_udp,
                before.rows.len() as int,
                from,
                from + n,
                load,
                streams,
            )
        }),
    decreases n,
{
    let before = import_to(rd, cfg, default_udp, default_tcp, from);
    let at = before.rows.len() as int;
    let test = cfg.tests@[from + n - 1];
    assert(test.src@ == src && test.dst@ == dst);
    let profiles = cfg.link_profiles.by_nic@;
    assert(tells_bandwidth(profiles, test));
    lemma_row_block(rd, cfg, default_udp, default_tcp, src, dst, from, n);
    let after = import_to(rd, cfg, default_udp, default_tcp, from + n);
    if n == 1 {
        let grown = ImportStateView { rows: before.rows.push(empty_row(src, dst)), ..before };
        lemma_row_index(before.rows, src, dst, 0, at);
        lemma_row_index(before.rows, dst, src, 0, at);
        assert(grown.rows[at] == empty_row(src, dst));
        lemma_state_with_udp(
            grown,
            profiles,
            test,
            at,
            default_udp,
            default_tcp,
            load,
            streams,
        );
        assert(after == state_with(
            grown,
            profiles,
            test,
            src,
            dst,
            at,
            false,
            default_udp,
            default_tcp,
        ));
        let numbers = after.rows[at].pair.udp_groups;
        if exists|j: int|
            from <= j < from + 1 && tells_load(
                profiles,
                #[trigger] cfg.tests@[j],
                default_udp,
                load,
                streams,
            ) {
            assert(tells_load(profiles, test, default_udp, load, streams));
        }
        if tells_load(profiles, test, default_udp, load, streams) {
            assert(from <= from < from + 1 && tells_load(
                profiles,
                cfg.tests@[from],
                default_udp,
                load,
                streams,
            ));
        }
    } else {
        lemma_row_block(rd, cfg, default_udp, default_tcp, src, dst, from, n - 1);
        lemma_row_block_udp(
            rd,
            cfg,
            default_udp,
            default_tcp,
            src,
            dst,
            from,
            n - 1,
            load,
            streams,
        );
        let mid = import_to(rd, cfg, default_udp, default_tcp, from + n - 1);
        let tests = cfg.tests@.subrange(from, cfg.tests@.len() as int);
        lemma_fold_ends(src, dst, tests, default_tcp, n - 1);
        assert(bare(mid.rows[at]).pair.src == src && bare(mid.rows[at]).pair.dst == dst);
        assert forall|k: int| 0 <= k < at implies !has_ends(#[trigger] mid.rows[k], src, dst) by {
            assert(mid.rows[k] == before.rows[k]);
        }
        lemma_row_index(mid.rows, src, dst, 0, at);
        lemma_state_with_udp(
            mid,
            profiles,
            test,
            at,
            default_udp,
            default_tcp,
            load,
            streams,
        );
        assert(after == state_with(
            mid,
            profiles,
            test,
            src,
            dst,
            at,
            false,
            default_udp,
            default_tcp,
        ));
        let told_before = exists|j: int|
            from <= j < from + n - 1 && tells_load(
                profiles,
                #[trigger] cfg.tests@[j],
                default_udp,
                load,
                streams,
            );
        let told_after = exists|j: int|
            from <= j < from + n && tells_load(
                profiles,
                #[trigger] cfg.tests@[j],
                default_udp,
                load,
                streams,
            );
        if told_before {
            let j = choose|j: int|
                from <= j < from + n - 1 && tells_load(
                    profiles,
                    #[trigger] cfg.tests@[j],
                    default_udp,
                    load,
                    streams,
                );
            assert(from <= j < from + n && tells_load(
                profiles,
                cfg.tests@[j],
                default_udp,
                load,
                streams,
            ));
        }
        if tells_load(profiles, test, default_udp, load, streams) {
            assert(from <= from + n - 1 < from + n);
        }
        if told_after {
            let j = choose|j: int|
                from <= j < from + n && tells_load(
                    profiles,
                    #[trigger] cfg.tests@[j],
                    default_udp,
                    load,
                    streams,
                );
            if j < from + n - 1 {
                assert(from <= j < from + n - 1 && tells_load(
                    profiles,
                    cfg.tests@[j],
                    default_udp,
                    load,
                    streams,
                ));
            }
        }
        if exists|j: int|
            from <= j < from + n && tells_group(
                profiles,
                #[trigger] cfg.tests@[j],
                cfg.tests@[j].src@,
                cfg.tests@[j].dst@,
            ) {
            let j = choose|j: int|
                from <= j < from + n && tells_group(
                    profiles,
                    #[trigger] cfg.tests@[j],
                    cfg.tests@[j].src@,
                    cfg.tests@[j].dst@,
                );
            if j < from + n - 1 {
                assert(from <= j < from + n - 1 && tells_group(
                    profiles,
                    cfg.tests@[j],
                    cfg.tests@[j].src@,
                    cfg.tests@[j].dst@,
                ));
            }
        }
    }
}

/// No row that was read before row `n` has its ends.
#[verifier::spinoff_prover]
#[verifier::rlimit(30)]
pub(crate) proof fn lemma_ends_are_new(
    cfg: Config,
    rd: Readings,
    req: RunRequest,
    sweeps: SweepsView,
    default_udp: UdpGroupOutView,
    default_tcp: TcpGroupOutView,
    n: int,
)
    requires
        0 <= n < req.pairs@.len(),
        holds_matrix(cfg, rd, req, sweeps),
        sound_matrix(rd, req, sweeps),
    ensures
        ({
            let pair = req.pairs@[n];
            let from = tests_before(rd, req, sweeps, n);
            let count = row_tests(rd, req, sweeps, n).len() as int;
            let before = import_to(rd, cfg, default_udp, default_tcp, from);
            &&& before.rows.len() == n
            &&& forall|k: int|
                0 <= k < before.rows.len() ==> !has_ends(
                    #[trigger] before.rows[k],
                    pair.src@,
                    pair.dst@,
                ) && !has_ends(before.rows[k], pair.dst@, pair.src@)
            &&& forall|k: int|
                from <= k < from + count ==> (#[trigger] cfg.tests@[k]).src@ == pair.src@
                    && cfg.tests@[k].dst@ == pair.dst@
        }),
{
    lemma_rows(cfg, rd, req, sweeps, default_udp, default_tcp, n);
    lemma_tests_of_row(cfg, rd, req, sweeps, n);
    let pair = req.pairs@[n];
    let from = tests_before(rd, req, sweeps, n);
    let count = row_tests(rd, req, sweeps, n).len() as int;
    let before = import_to(rd, cfg, default_udp, default_tcp, from);
    assert forall|k: int| from <= k < from + count implies (#[trigger] cfg.tests@[k]).src@
        == pair.src@ && cfg.tests@[k].dst@ == pair.dst@ by {
        let j = k - from;
        assert(cfg.tests@[from + j]@ == row_tests(rd, req, sweeps, n)[j]);
        assert(is_row_test(row_tests(rd, req, sweeps, n)[j], rd, pair));
    }
    assert forall|k: int| 0 <= k < before.rows.len() implies !has_ends(
        #[trigger] before.rows[k],
        pair.src@,
        pair.dst@,
    ) && !has_ends(before.rows[k], pair.dst@, pair.src@) by {
        assert(!same_ends(req.pairs@[k], pair));
        lemma_fold_ends(
            req.pairs@[k].src@,
            req.pairs@[k].dst@,
            cfg.tests@.subrange(tests_before(rd, req, sweeps, k), cfg.tests@.len() as int),
            default_tcp,
            row_tests(rd, req, sweeps, k).len() as int,
        );
        assert(bare(before.rows[k]).pair.src == before.rows[k].pair.src);
    }
}

pub(crate) proof fn lemma_row_still_matches(
    st: ImportStateView,
    later: ImportStateView,
    cfg: Config,
    default_udp: UdpGroupOutView,
    at: int,
    from: int,
    to: int,
    load: UdpProfileView,
    streams: u32,
)
    requires
        row_matches_udp(st, cfg, default_udp, at, from, to, load, streams),
        later.rows[at] == st.rows[at],
        extends(later.groups, st.groups),
    ensures
        row_matches_udp(later, cfg, default_udp, at, from, to, load, streams),
{
    lemma_udp_numbers_extend(
        later.groups,
        st.groups,
        default_udp,
        st.rows[at].pair.udp_groups,
        load,
        streams,
    );
}

/// The UDP groups of the first `n` rows run what their tests tell of.
#[verifier::spinoff_prover]
#[verifier::rlimit(30)]
pub(crate) proof fn lemma_rows_udp(
    cfg: Config,
    rd: Readings,
    req: RunRequest,
    sweeps: SweepsView,
    default_udp: UdpGroupOutView,
    default_tcp: TcpGroupOutView,
    n: int,
    load: UdpProfileView,
    streams: u32,
)
    requires
        0 <= n <= req.pairs@.len(),
        holds_matrix(cfg, rd, req, sweeps),
        sound_matrix(rd, req, sweeps),
        forall|k: int|
            0 <= k < cfg.tests@.len() ==> tells_bandwidth(
                cfg.link_profiles.by_nic@,
                #[trigger] cfg.tests@[k],
            ),
    ensures
        ({
            let st = import_to(
                rd,
                cfg,
                default_udp,
                default_tcp,
                tests_before(rd, req, sweeps, n),
            );
            &&& st.groups.len() <= tests_before(rd, req, sweeps, n)
            &&& st.rows.len() == n
            &&& forall|i: int|
                0 <= i < n ==> #[trigger] row_matches_udp(
                    st,
                    cfg,
                    default_udp,
                    i,
                    tests_before(rd, req, sweeps, i),
                    tests_before(rd, req, sweeps, i + 1),
                    load,
                    streams,
                )
        }),
    decreases n,
{
    lemma_rows(cfg, rd, req, sweeps, default_udp, default_tcp, n);
    if n > 0 {
        lemma_rows_udp(
            cfg,
            rd,
            req,
            sweeps,
            default_udp,
            default_tcp,
            n - 1,
            load,
            streams,
        );
        lemma_tests_of_row(cfg, rd, req, sweeps, n - 1);
        lemma_ends_are_new(cfg, rd, req, sweeps, default_udp, default_tcp, n - 1);
        let pair = req.pairs@[n - 1];
        assert(ends_spelled(rd, pair));
        let from = tests_before(rd, req, sweeps, n - 1);
        let count = row_tests(rd, req, sweeps, n - 1).len() as int;
        let before = import_to(rd, cfg, default_udp, default_tcp, from);
        let st = import_to(rd, cfg, default_udp, default_tcp, from + count);
        assert(tests_before(rd, req, sweeps, n) == from + count);
        assert(cfg.tests@.len() == cfg.tests.len());
        lemma_row_block(
            rd,
            cfg,
            default_udp,
            default_tcp,
            pair.src@,
            pair.dst@,
            from,
            count,
        );
        lemma_row_block_udp(
            rd,
            cfg,
            default_udp,
            default_tcp,
            pair.src@,
            pair.dst@,
            from,
            count,
            load,
            streams,
        );
        assert forall|i: int| 0 <= i < n implies #[trigger] row_matches_udp(
            st,
            cfg,
            default_udp,
            i,
            tests_before(rd, req, sweeps, i),
            tests_before(rd, req, sweeps, i + 1),
            load,
            streams,
        ) by {
            if i < n - 1 {
                assert(st.rows[i] == before.rows[i]);
                lemma_row_still_matches(
                    before,
                    st,
                    cfg,
                    default_udp,
                    i,
                    tests_before(rd, req, sweeps, i),
                    tests_before(rd, req, sweeps, i + 1),
                    load,
                    streams,
                );
            }
        }
    }
}

// ---------------------------------------------------------------------------
// What a row of the matrix runs over UDP
// ---------------------------------------------------------------------------

/// The UDP group that a row runs as its `g`th.
pub open spec fn udp_chosen(pair: PairSelection, sweeps: SweepsView, g: int) -> ResolvedUdpGroupView {
    group_at(sweeps.udp_groups, chosen_groups(pair.udp_groups@)[g])
}

/// Whether a row of the matrix runs a load with a number of streams.
pub open spec fn row_runs_udp(
    pair: PairSelection,
    sweeps: SweepsView,
    load: UdpProfileView,
    streams: u32,
) -> bool {
    exists|g: int|
        0 <= g < chosen_groups(pair.udp_groups@).len() && (#[trigger] udp_chosen(
            pair,
            sweeps,
            g,
        )).streams == streams && udp_chosen(pair, sweeps, g).loads().contains(load)
}

/// The directions of a row in which some end that sends has no bandwidth of its own.
pub open spec fn swept_directions(pair: PairSelection, sweeps: SweepsView) -> Seq<Seq<char>> {
    directions_where(
        texts(pair.directions@),
        sweeps.pinned_senders.contains(pair.src@),
        sweeps.pinned_senders.contains(pair.dst@),
        false,
    )
}

/// The other directions of a row.
pub open spec fn pinned_directions(pair: PairSelection, sweeps: SweepsView) -> Seq<Seq<char>> {
    directions_where(
        texts(pair.directions@),
        sweeps.pinned_senders.contains(pair.src@),
        sweeps.pinned_senders.contains(pair.dst@),
        true,
    )
}

/// Whether all groups that a row runs are ones whose loads can be told from their axes.
pub open spec fn groups_complete(pair: PairSelection, sweeps: SweepsView) -> bool {
    forall|g: int|
        0 <= g < chosen_groups(pair.udp_groups@).len() ==> complete(
            (#[trigger] udp_chosen(pair, sweeps, g)).loads(),
        ) && udp_chosen(pair, sweeps, g).streams > 0
}

/// Whether a configuration fixes the bandwidth of the same ends of a row as the request does.
pub open spec fn pins_agree(cfg: Config, pair: PairSelection, sweeps: SweepsView) -> bool {
    &&& bandwidth_pinned(cfg.link_profiles.by_nic@, pair.src@) == sweeps.pinned_senders.contains(
        pair.src@,
    )
    &&& bandwidth_pinned(cfg.link_profiles.by_nic@, pair.dst@) == sweeps.pinned_senders.contains(
        pair.dst@,
    )
}

/// Whether a test stands for a load in directions that are swept.
pub open spec fn view_tells(
    t: TestSpecView,
    swept: Seq<Seq<char>>,
    load: UdpProfileView,
    streams: u32,
) -> bool {
    word_of(t) == "udp"@ && t.direction == swept && t.udp_profiles is Some
        && t.udp_profiles->0.contains(load) && t.udp_streams == Some(streams)
}

/// Whether a test is one of the UDP tests of a row.
pub open spec fn is_udp_test(t: TestSpecView, pair: PairSelection, sweeps: SweepsView) -> bool {
    &&& word_of(t) == "udp"@
    &&& t.udp_profiles is Some
    &&& t.udp_streams is Some
    &&& t.direction.len() > 0
    &&& (t.direction == swept_directions(pair, sweeps) && complete(t.udp_profiles->0)
        && t.udp_streams->0 > 0) || t.direction == pinned_directions(pair, sweeps)
}

pub(crate) proof fn lemma_udp_tests_tell(
    rd: Readings,
    idx: usize,
    pair: PairSelection,
    req: RunRequest,
    sweeps: SweepsView,
    k: int,
    load: UdpProfileView,
    streams: u32,
)
    requires
        0 <= k <= chosen_groups(pair.udp_groups@).len(),
        plain_row(pair),
        groups_complete(pair, sweeps),
        swept_directions(pair, sweeps).len() > 0,
    ensures
        ({
            let all = udp_tests_to(rd, idx, pair, req, sweeps, k);
            &&& forall|j: int| 0 <= j < all.len() ==> is_udp_test(#[trigger] all[j], pair, sweeps)
            &&& (exists|j: int|
                0 <= j < all.len() && view_tells(
                    #[trigger] all[j],
                    swept_directions(pair, sweeps),
                    load,
                    streams,
                )) <==> exists|g: int|
                0 <= g < k && (#[trigger] udp_chosen(pair, sweeps, g)).streams == streams
                    && udp_chosen(pair, sweeps, g).loads().contains(load)
            &&& k > 0 ==> exists|j: int|
                0 <= j < all.len() && (#[trigger] all[j]).direction == swept_directions(pair, sweeps)
        }),
    decreases k,
{
    let swept = swept_directions(pair, sweeps);
    let pinned = pinned_directions(pair, sweeps);
    if k > 0 {
        lemma_words();
        lemma_udp_tests_tell(rd, idx, pair, req, sweeps, k - 1, load, streams);
        let before = udp_tests_to(rd, idx, pair, req, sweeps, k - 1);
        let group = chosen_groups(pair.udp_groups@)[k - 1];
        lemma_udp_group_tests(rd, idx, pair, req, sweeps, group);
        let more = udp_group_tests(rd, idx, pair, req, sweeps, group);
        let all = udp_tests_to(rd, idx, pair, req, sweeps, k);
        assert(all == before + more);
        let own = udp_chosen(pair, sweeps, k - 1);
        assert(complete(own.loads()) && own.streams > 0);
        lemma_swept_differs(pair, sweeps);
        let last = more.len() - 1;
        assert(more[last].direction == swept && more[last].udp_profiles == Some(own.loads())
            && more[last].udp_streams == Some(own.streams));
        assert forall|j: int| 0 <= j < more.len() implies is_udp_test(#[trigger] more[j], pair, sweeps)
            && view_tells(more[j], swept, load, streams) == (j == last && own.streams == streams
            && own.loads().contains(load)) by {
            if j < last {
                assert(more[j].direction == pinned);
            }
        }
        assert forall|j: int| 0 <= j < all.len() implies is_udp_test(#[trigger] all[j], pair, sweeps) by {
            if j < before.len() {
                assert(all[j] == before[j]);
            } else {
                assert(all[j] == more[j - before.len()]);
            }
        }
        assert(all[before.len() + last] == more[last]);
        if exists|j: int| 0 <= j < all.len() && view_tells(#[trigger] all[j], swept, load, streams) {
            let j = choose|j: int|
                0 <= j < all.len() && view_tells(#[trigger] all[j], swept, load, streams);
            if j < before.len() {
                assert(all[j] == before[j]);
                let g = choose|g: int|
                    0 <= g < k - 1 && (#[trigger] udp_chosen(pair, sweeps, g)).streams == streams
                        && udp_chosen(pair, sweeps, g).loads().contains(load);
                assert(0 <= g < k && udp_chosen(pair, sweeps, g).streams == streams);
            } else {
                assert(all[j] == more[j - before.len()]);
                assert(udp_chosen(pair, sweeps, k - 1).streams == streams);
            }
        }
        if exists|g: int|
            0 <= g < k && (#[trigger] udp_chosen(pair, sweeps, g)).streams == streams && udp_chosen(
                pair,
                sweeps,
                g,
            ).loads().contains(load) {
            let g = choose|g: int|
                0 <= g < k && (#[trigger] udp_chosen(pair, sweeps, g)).streams == streams
                    && udp_chosen(pair, sweeps, g).loads().contains(load);
            if g < k - 1 {
                assert(0 <= g < k - 1 && udp_chosen(pair, sweeps, g).streams == streams);
                let j = choose|j: int|
                    0 <= j < before.len() && view_tells(#[trigger] before[j], swept, load, streams);
                assert(all[j] == before[j]);
            } else {
                assert(view_tells(more[last], swept, load, streams));
            }
        }
    }
}

/// A direction is swept or pinned, never both.
pub(crate) proof fn lemma_swept_differs(pair: PairSelection, sweeps: SweepsView)
    requires
        swept_directions(pair, sweeps).len() > 0,
    ensures
        swept_directions(pair, sweeps) != pinned_directions(pair, sweeps),
{
    let dirs = texts(pair.directions@);
    let src_pinned = sweeps.pinned_senders.contains(pair.src@);
    let dst_pinned = sweeps.pinned_senders.contains(pair.dst@);
    lemma_directions_where(dirs, src_pinned, dst_pinned, true, dirs.len() as int);
    lemma_directions_where(dirs, src_pinned, dst_pinned, false, dirs.len() as int);
    let swept = swept_directions(pair, sweeps);
    let first = swept[0];
    assert(swept.contains(first));
    if swept == pinned_directions(pair, sweeps) {
        assert(pinned_directions(pair, sweeps).contains(first));
    }
}

/// What a test of a row tells of its group.
pub(crate) proof fn lemma_test_tells(
    cfg: Config,
    rd: Readings,
    pair: PairSelection,
    sweeps: SweepsView,
    test: TestSpec,
    default_udp: UdpGroupOutView,
    load: UdpProfileView,
    streams: u32,
)
    requires
        is_row_test(test@, rd, pair),
        plain_row(pair),
        pins_agree(cfg, pair, sweeps),
        swept_directions(pair, sweeps).len() > 0,
        word_of(test@) == "udp"@ ==> is_udp_test(test@, pair, sweeps),
    ensures
        tells_load(cfg.link_profiles.by_nic@, test, default_udp, load, streams) <==> view_tells(
            test@,
            swept_directions(pair, sweeps),
            load,
            streams,
        ),
        tells_group(cfg.link_profiles.by_nic@, test, test.src@, test.dst@) <==> word_of(test@)
            == "udp"@ && test@.direction == swept_directions(pair, sweeps),
        tells_bandwidth(cfg.link_profiles.by_nic@, test),
{
    let profiles = cfg.link_profiles.by_nic@;
    let t = test@;
    lemma_shown(test, rd, pair);
    lemma_swept_differs(pair, sweeps);
    if word_of(t) == "udp"@ {
        let dirs = texts(pair.directions@);
        let src_pinned = sweeps.pinned_senders.contains(pair.src@);
        let dst_pinned = sweeps.pinned_senders.contains(pair.dst@);
        lemma_directions_where(dirs, src_pinned, dst_pinned, true, dirs.len() as int);
        lemma_directions_where(dirs, src_pinned, dst_pinned, false, dirs.len() as int);
        let words = seq!["ab"@, "ba"@, "bidir"@];
        assert forall|k: int| 0 <= k < t.direction.len() implies words.contains(
            #[trigger] t.direction[k],
        ) by {
            assert(dirs.contains(t.direction[k]));
            let m = choose|m: int| 0 <= m < dirs.len() && dirs[m] == t.direction[k];
            assert(words.contains(dirs[m]));
        }
        lemma_directions_meant(t.direction, t.direction.len() as int);
        assert(t.direction.take(t.direction.len() as int) =~= t.direction);
        let meant = directions_meant(t.direction);
        assert(t.direction.contains(t.direction[0]));
        assert(meant.contains(t.direction[0]));
        let at = choose|k: int| 0 <= k < meant.len() && meant[k] == t.direction[0];
        assert(meant.len() > 0);
        if t.direction == swept_directions(pair, sweeps) {
            assert(swept_directions(pair, sweeps).contains(t.direction[0]));
            assert(!direction_pinned(meant[at], src_pinned, dst_pinned));
            assert(!test_pinned(profiles, test, test.src@, test.dst@));
            let loads = views(test.udp_profiles->0@);
            assert(t.udp_profiles == Some(loads));
            assert(complete(loads));
            crate::sweep::lemma_deduped(load_bandwidths(loads));
            assert(load_bandwidths(loads)[0] == loads[0].bandwidth);
            assert(load_bandwidths(loads).contains(loads[0].bandwidth));
            assert(axes_of(loads).0.contains(loads[0].bandwidth));
            assert(axes_of(loads).0.len() > 0);
            assert(loads.contains(load) <==> in_sweep(
                axes_of(loads).0,
                axes_of(loads).1,
                axes_of(loads).2,
                load,
            ));
        } else {
            assert forall|k: int| 0 <= k < meant.len() implies direction_pinned(
                #[trigger] meant[k],
                src_pinned,
                dst_pinned,
            ) by {
                assert(meant.contains(meant[k]));
                assert(t.direction.contains(meant[k]));
            }
            assert(test_pinned(profiles, test, test.src@, test.dst@));
        }
    }
}

/// Every UDP test of a row runs in its swept directions or in its pinned ones.
pub(crate) proof fn lemma_udp_tests_shape(
    rd: Readings,
    idx: usize,
    pair: PairSelection,
    req: RunRequest,
    sweeps: SweepsView,
    k: int,
)
    requires
        0 <= k <= chosen_groups(pair.udp_groups@).len(),
        plain_row(pair),
        groups_complete(pair, sweeps),
    ensures
        ({
            let all = udp_tests_to(rd, idx, pair, req, sweeps, k);
            forall|j: int| 0 <= j < all.len() ==> is_udp_test(#[trigger] all[j], pair, sweeps)
        }),
    decreases k,
{
    if k > 0 {
        lemma_udp_tests_shape(rd, idx, pair, req, sweeps, k - 1);
        let before = udp_tests_to(rd, idx, pair, req, sweeps, k - 1);
        let group = chosen_groups(pair.udp_groups@)[k - 1];
        lemma_udp_group_tests(rd, idx, pair, req, sweeps, group);
        let more = udp_group_tests(rd, idx, pair, req, sweeps, group);
        let all = udp_tests_to(rd, idx, pair, req, sweeps, k);
        assert(all == before + more);
        let own = udp_chosen(pair, sweeps, k - 1);
        assert(complete(own.loads()) && own.streams > 0);
        assert forall|j: int| 0 <= j < all.len() implies is_udp_test(#[trigger] all[j], pair, sweeps) by {
            if j < before.len() {
                assert(all[j] == before[j]);
            } else {
                let t = more[j - before.len()];
                assert(all[j] == t);
                assert(t.direction == pinned_directions(pair, sweeps) || (t.direction
                    == swept_directions(pair, sweeps) && t.udp_profiles == Some(own.loads())
                    && t.udp_streams == Some(own.streams)));
            }
        }
    }
}

/// Whether what a row runs over UDP can be told from its tests.
pub open spec fn row_ready(cfg: Config, pair: PairSelection, sweeps: SweepsView) -> bool {
    texts(pair.transports@).contains("udp"@) ==> pins_agree(cfg, pair, sweeps) && groups_complete(
        pair,
        sweeps,
    )
}

/// A test of a row in whose directions all ends that send have a bandwidth of their own tells of no
/// group.
pub(crate) proof fn lemma_pinned_test_tells_nothing(
    cfg: Config,
    rd: Readings,
    pair: PairSelection,
    sweeps: SweepsView,
    test: TestSpec,
)
    requires
        is_row_test(test@, rd, pair),
        plain_row(pair),
        word_of(test@) == "udp"@ ==> pins_agree(cfg, pair, sweeps) && is_udp_test(
            test@,
            pair,
            sweeps,
        ),
        swept_directions(pair, sweeps).len() == 0,
    ensures
        !tells_group(cfg.link_profiles.by_nic@, test, test.src@, test.dst@),
{
    let profiles = cfg.link_profiles.by_nic@;
    let t = test@;
    lemma_shown(test, rd, pair);
    if word_of(t) == "udp"@ {
        let dirs = texts(pair.directions@);
        let src_pinned = sweeps.pinned_senders.contains(pair.src@);
        let dst_pinned = sweeps.pinned_senders.contains(pair.dst@);
        lemma_directions_where(dirs, src_pinned, dst_pinned, true, dirs.len() as int);
        let words = seq!["ab"@, "ba"@, "bidir"@];
        assert forall|k: int| 0 <= k < t.direction.len() implies words.contains(
            #[trigger] t.direction[k],
        ) by {
            assert(dirs.contains(t.direction[k]));
            let m = choose|m: int| 0 <= m < dirs.len() && dirs[m] == t.direction[k];
            assert(words.contains(dirs[m]));
        }
        lemma_directions_meant(t.direction, t.direction.len() as int);
        assert(t.direction.take(t.direction.len() as int) =~= t.direction);
        let meant = directions_meant(t.direction);
        assert(t.direction == pinned_directions(pair, sweeps));
        assert(t.direction.contains(t.direction[0]));
        assert(meant.contains(t.direction[0]));
        let at = choose|k: int| 0 <= k < meant.len() && meant[k] == t.direction[0];
        assert(meant.len() > 0);
        assert forall|k: int| 0 <= k < meant.len() implies direction_pinned(
            #[trigger] meant[k],
            src_pinned,
            dst_pinned,
        ) by {
            assert(meant.contains(meant[k]));
            assert(t.direction.contains(meant[k]));
        }
        assert(test_pinned(profiles, test, test.src@, test.dst@));
    }
}

/// A test of a row tells of a group only where its loads have a bandwidth.
pub(crate) proof fn lemma_test_tells_bandwidth(
    cfg: Config,
    rd: Readings,
    pair: PairSelection,
    sweeps: SweepsView,
    test: TestSpec,
    default_udp: UdpGroupOutView,
)
    requires
        is_row_test(test@, rd, pair),
        plain_row(pair),
        word_of(test@) == "udp"@ ==> pins_agree(cfg, pair, sweeps) && is_udp_test(
            test@,
            pair,
            sweeps,
        ),
    ensures
        tells_bandwidth(cfg.link_profiles.by_nic@, test),
{
    if swept_directions(pair, sweeps).len() == 0 {
        lemma_pinned_test_tells_nothing(cfg, rd, pair, sweeps, test);
    } else {
        lemma_shown(test, rd, pair);
        if word_of(test@) == "udp"@ {
            lemma_test_tells(
                cfg,
                rd,
                pair,
                sweeps,
                test,
                default_udp,
                arbitrary(),
                0,
            );
        }
    }
}

/// The shape of the tests of row `i` in a configuration that holds the matrix.
pub(crate) proof fn lemma_row_tests_shape(
    cfg: Config,
    rd: Readings,
    req: RunRequest,
    sweeps: SweepsView,
    i: int,
)
    requires
        0 <= i < req.pairs@.len(),
        holds_matrix(cfg, rd, req, sweeps),
        sound_matrix(rd, req, sweeps),
        row_ready(cfg, req.pairs@[i], sweeps),
    ensures
        ({
            let pair = req.pairs@[i];
            let from = tests_before(rd, req, sweeps, i);
            let plain = pair_tests(rd, i as usize, pair, req, sweeps);
            &&& row_tests(rd, req, sweeps, i).len() == plain.len()
            &&& forall|j: int|
                0 <= j < plain.len() ==> {
                    let t = (#[trigger] cfg.tests@[from + j])@;
                    &&& is_row_test(t, rd, pair)
                    &&& word_of(t) == "udp"@ ==> texts(pair.transports@).contains("udp"@)
                        && is_udp_test(t, pair, sweeps)
                    &&& word_of(t) == word_of(plain[j])
                    &&& t.direction == plain[j].direction
                    &&& t.udp_profiles == plain[j].udp_profiles
                    &&& t.udp_streams == plain[j].udp_streams
                }
        }),
{
    let pair = req.pairs@[i];
    let idx = i as usize;
    lemma_words();
    lemma_tests_of_row(cfg, rd, req, sweeps, i);
    lemma_pair_tests(rd, idx, pair, req, sweeps);
    let from = tests_before(rd, req, sweeps, i);
    let own = row_tests(rd, req, sweeps, i);
    let plain = pair_tests(rd, idx, pair, req, sweeps);
    let transports = texts(pair.transports@);
    let groups = chosen_groups(pair.udp_groups@).len() as int;
    lemma_tcp_tests(rd, idx, pair, sweeps, chosen_groups(pair.tcp_groups@).len() as int);
    let tcp = if transports.contains("tcp"@) {
        tcp_tests_to(rd, idx, pair, sweeps, chosen_groups(pair.tcp_groups@).len() as int)
    } else {
        Seq::empty()
    };
    let udp = if transports.contains("udp"@) {
        udp_tests_to(rd, idx, pair, req, sweeps, groups)
    } else {
        Seq::empty()
    };
    if transports.contains("udp"@) {
        lemma_udp_tests_shape(rd, idx, pair, req, sweeps, groups);
    }
    assert forall|j: int| 0 <= j < plain.len() implies {
        let t = (#[trigger] cfg.tests@[from + j])@;
        &&& is_row_test(t, rd, pair)
        &&& word_of(t) == "udp"@ ==> transports.contains("udp"@) && is_udp_test(t, pair, sweeps)
        &&& word_of(t) == word_of(plain[j])
        &&& t.direction == plain[j].direction
        &&& t.udp_profiles == plain[j].udp_profiles
        &&& t.udp_streams == plain[j].udp_streams
    } by {
        assert(cfg.tests@[from + j]@ == own[j]);
        assert(is_row_test(own[j], rd, pair));
        if j < tcp.len() {
            assert(plain[j] == tcp[j]);
        } else if j < tcp.len() + udp.len() {
            assert(plain[j] == udp[j - tcp.len()]);
            assert(is_udp_test(udp[j - tcp.len()], pair, sweeps));
        } else {
            assert(plain[j] == ping_test(rd, idx, pair, req, sweeps));
        }
    }
}

/// The tests of row `i` tell of the loads that the row runs.
#[verifier::spinoff_prover]
#[verifier::rlimit(30)]
pub(crate) proof fn lemma_row_tells(
    cfg: Config,
    rd: Readings,
    req: RunRequest,
    sweeps: SweepsView,
    default_udp: UdpGroupOutView,
    i: int,
    load: UdpProfileView,
    streams: u32,
)
    requires
        0 <= i < req.pairs@.len(),
        holds_matrix(cfg, rd, req, sweeps),
        sound_matrix(rd, req, sweeps),
        row_ready(cfg, req.pairs@[i], sweeps),
        texts(req.pairs@[i].transports@).contains("udp"@),
        swept_directions(req.pairs@[i], sweeps).len() > 0,
    ensures
        ({
            let profiles = cfg.link_profiles.by_nic@;
            let from = tests_before(rd, req, sweeps, i);
            let to = tests_before(rd, req, sweeps, i + 1);
            &&& (exists|j: int|
                from <= j < to && tells_load(
                    profiles,
                    #[trigger] cfg.tests@[j],
                    default_udp,
                    load,
                    streams,
                )) <==> row_runs_udp(req.pairs@[i], sweeps, load, streams)
            &&& exists|j: int|
                from <= j < to && tells_group(
                    profiles,
                    #[trigger] cfg.tests@[j],
                    cfg.tests@[j].src@,
                    cfg.tests@[j].dst@,
                )
        }),
{
    let pair = req.pairs@[i];
    let idx = i as usize;
    let profiles = cfg.link_profiles.by_nic@;
    let from = tests_before(rd, req, sweeps, i);
    let to = tests_before(rd, req, sweeps, i + 1);
    lemma_words();
    lemma_tests_of_row(cfg, rd, req, sweeps, i);
    lemma_row_tests_shape(cfg, rd, req, sweeps, i);
    lemma_tcp_tests(rd, idx, pair, sweeps, chosen_groups(pair.tcp_groups@).len() as int);
    lemma_chosen_groups(pair.udp_groups@);
    let groups = chosen_groups(pair.udp_groups@).len() as int;
    let swept = swept_directions(pair, sweeps);
    lemma_udp_tests_tell(rd, idx, pair, req, sweeps, groups, load, streams);
    lemma_udp_tests(rd, idx, pair, req, sweeps, groups);
    let plain = pair_tests(rd, idx, pair, req, sweeps);
    let transports = texts(pair.transports@);
    let tcp = if transports.contains("tcp"@) {
        tcp_tests_to(rd, idx, pair, sweeps, chosen_groups(pair.tcp_groups@).len() as int)
    } else {
        Seq::empty()
    };
    let udp = udp_tests_to(rd, idx, pair, req, sweeps, groups);
    assert(tcp.len() + udp.len() <= plain.len());
    assert forall|j: int| 0 <= j < plain.len() implies (#[trigger] tells_load(
        profiles,
        cfg.tests@[from + j],
        default_udp,
        load,
        streams,
    ) <==> tcp.len() <= j < tcp.len() + udp.len() && view_tells(
        udp[j - tcp.len()],
        swept,
        load,
        streams,
    )) && (tells_group(
        profiles,
        cfg.tests@[from + j],
        cfg.tests@[from + j].src@,
        cfg.tests@[from + j].dst@,
    ) <==> tcp.len() <= j < tcp.len() + udp.len() && udp[j - tcp.len()].direction == swept) by {
        let test = cfg.tests@[from + j];
        assert(is_row_test(test@, rd, pair));
        lemma_test_tells(cfg, rd, pair, sweeps, test, default_udp, load, streams);
        if j < tcp.len() {
            assert(plain[j] == tcp[j]);
        } else if j < tcp.len() + udp.len() {
            assert(plain[j] == udp[j - tcp.len()]);
        } else {
            assert(plain[j] == ping_test(rd, idx, pair, req, sweeps));
        }
    }
    if exists|j: int|
        from <= j < to && tells_load(
            profiles,
            #[trigger] cfg.tests@[j],
            default_udp,
            load,
            streams,
        ) {
        let j = choose|j: int|
            from <= j < to && tells_load(
                profiles,
                #[trigger] cfg.tests@[j],
                default_udp,
                load,
                streams,
            );
        let m = j - from;
        assert(tells_load(profiles, cfg.tests@[from + m], default_udp, load, streams));
        assert(view_tells(udp[m - tcp.len()], swept, load, streams));
    }
    if row_runs_udp(pair, sweeps, load, streams) {
        let m = choose|m: int|
            0 <= m < udp.len() && view_tells(#[trigger] udp[m], swept, load, streams);
        let j = tcp.len() + m;
        assert(tells_load(profiles, cfg.tests@[from + j], default_udp, load, streams));
    }
    let m = choose|m: int| 0 <= m < udp.len() && (#[trigger] udp[m]).direction == swept;
    let j = tcp.len() + m;
    assert(plain[j] == udp[m]);
    assert(is_row_test(cfg.tests@[from + j]@, rd, pair));
    lemma_test_tells(cfg, rd, pair, sweeps, cfg.tests@[from + j], default_udp, load, streams);
    assert(tells_group(
        profiles,
        cfg.tests@[from + j],
        cfg.tests@[from + j].src@,
        cfg.tests@[from + j].dst@,
    ));
}

/// Every test of the matrix tells of a group only where its loads have a bandwidth.
pub(crate) proof fn lemma_all_tell_bandwidth(
    cfg: Config,
    rd: Readings,
    req: RunRequest,
    sweeps: SweepsView,
    default_udp: UdpGroupOutView,
    n: int,
    k: int,
)
    requires
        0 <= n <= req.pairs@.len(),
        0 <= k < tests_before(rd, req, sweeps, n),
        holds_matrix(cfg, rd, req, sweeps),
        sound_matrix(rd, req, sweeps),
        forall|r: int|
            0 <= r < req.pairs@.len() ==> row_ready(cfg, #[trigger] req.pairs@[r], sweeps),
    ensures
        tells_bandwidth(cfg.link_profiles.by_nic@, cfg.tests@[k]),
    decreases n,
{
    if n > 0 {
        let from = tests_before(rd, req, sweeps, n - 1);
        if k < from {
            lemma_all_tell_bandwidth(cfg, rd, req, sweeps, default_udp, n - 1, k);
        } else {
            let pair = req.pairs@[n - 1];
            assert(row_ready(cfg, pair, sweeps));
            assert(plain_row(pair));
            lemma_tests_of_row(cfg, rd, req, sweeps, n - 1);
            lemma_row_tests_shape(cfg, rd, req, sweeps, n - 1);
            let j = k - from;
            let test = cfg.tests@[from + j];
            assert(is_row_test(test@, rd, pair));
            lemma_test_tells_bandwidth(cfg, rd, pair, sweeps, test, default_udp);
        }
    }
}

/// The UDP groups found for a row of the matrix run what the row runs.
#[verifier::spinoff_prover]
#[verifier::rlimit(30)]
pub(crate) proof fn lemma_matrix_udp(
    cfg: Config,
    rd: Readings,
    req: RunRequest,
    sweeps: SweepsView,
    default_udp: UdpGroupOutView,
    default_tcp: TcpGroupOutView,
    i: int,
    load: UdpProfileView,
    streams: u32,
)
    requires
        0 <= i < req.pairs@.len(),
        holds_matrix(cfg, rd, req, sweeps),
        sound_matrix(rd, req, sweeps),
        forall|r: int|
            0 <= r < req.pairs@.len() ==> row_ready(cfg, #[trigger] req.pairs@[r], sweeps),
        texts(req.pairs@[i].transports@).contains("udp"@),
        swept_directions(req.pairs@[i], sweeps).len() > 0,
    ensures
        ({
            let st = import_to(rd, cfg, default_udp, default_tcp, cfg.tests@.len() as int);
            let pairs = finish_to(st.rows, default_tcp, st.rows.len() as int).1;
            &&& numbers_known(st.groups.len(), pairs[i].udp_groups)
            &&& numbers_run_udp(st.groups, default_udp, pairs[i].udp_groups, load, streams)
                <==> row_runs_udp(req.pairs@[i], sweeps, load, streams)
        }),
{
    let total = req.pairs@.len() as int;
    assert(tests_before(rd, req, sweeps, total) == cfg.tests@.len());
    assert forall|k: int| 0 <= k < cfg.tests@.len() implies tells_bandwidth(
        cfg.link_profiles.by_nic@,
        #[trigger] cfg.tests@[k],
    ) by {
        lemma_all_tell_bandwidth(cfg, rd, req, sweeps, default_udp, total, k);
    }
    lemma_rows_udp(cfg, rd, req, sweeps, default_udp, default_tcp, total, load, streams);
    assert(row_ready(cfg, req.pairs@[i], sweeps));
    lemma_row_tells(cfg, rd, req, sweeps, default_udp, i, load, streams);
    let st = import_to(rd, cfg, default_udp, default_tcp, cfg.tests@.len() as int);
    assert(row_matches_udp(
        st,
        cfg,
        default_udp,
        i,
        tests_before(rd, req, sweeps, i),
        tests_before(rd, req, sweeps, i + 1),
        load,
        streams,
    ));
    lemma_finish(st.rows, default_tcp, total);
}

/// The default loads of a request can be told from their axes: it gives bandwidths, or falls back on
/// loads that are all combinations of their values.
pub open spec fn default_loads_complete(state: UiState, rd: Readings, req: RunRequest) -> bool {
    cleaned(texts(req.udp_bandwidths@)).len() > 0 || complete(
        base_config(state, rd, req).iperf.udp_profiles,
    )
}

pub(crate) proof fn lemma_udp_groups_complete(
    state: UiState,
    rd: Readings,
    req: RunRequest,
    n: int,
    g: int,
)
    requires
        udp_groups_told(rd, req, 0) is Ok,
        default_loads_complete(state, rd, req),
        0 <= g <= n <= req.udp_groups@.len(),
    ensures
        ({
            let loads = base_config(state, rd, req).iperf.udp_profiles;
            let group = udp_groups_to(req, loads, n)[g];
            &&& udp_groups_to(req, loads, n).len() == n + 1
            &&& complete(group.loads())
            &&& group.streams > 0
        }),
    decreases n,
{
    let loads = base_config(state, rd, req).iperf.udp_profiles;
    if n > 0 {
        lemma_udp_groups_complete(state, rd, req, n - 1, if g < n {
            g
        } else {
            0
        });
        let before = udp_groups_to(req, loads, n - 1);
        let all = udp_groups_to(req, loads, n);
        if g < n {
            assert(all[g] == before[g]);
        } else {
            lemma_udp_group_given(rd, req, 0, n - 1);
            let group = req.udp_groups@[n - 1];
            lemma_sweeps_are_complete(
                cleaned(texts(group.bandwidths@)),
                cleaned(texts(group.lengths@)),
                cleaned(texts(group.windows@)),
            );
            assert(all[n] == resolved_udp(group));
        }
    } else if cleaned(texts(req.udp_bandwidths@)).len() > 0 {
        lemma_sweeps_are_complete(
            cleaned(texts(req.udp_bandwidths@)),
            cleaned(texts(req.udp_lengths@)),
            cleaned(texts(req.udp_windows@)),
        );
    }
}

pub(crate) proof fn lemma_udp_group_given(rd: Readings, req: RunRequest, i: int, k: int)
    requires
        udp_groups_told(rd, req, i) is Ok,
        0 <= i <= k < req.udp_groups@.len(),
    ensures
        cleaned(texts(req.udp_groups@[k].bandwidths@)).len() > 0,
    decreases k - i,
{
    if i < k {
        lemma_udp_group_given(rd, req, i + 1, k);
    }
}

/// A row none of whose tests tells of a UDP group stays with the default group.
#[verifier::spinoff_prover]
#[verifier::rlimit(30)]
pub(crate) proof fn lemma_matrix_default_udp(
    cfg: Config,
    rd: Readings,
    req: RunRequest,
    sweeps: SweepsView,
    default_udp: UdpGroupOutView,
    default_tcp: TcpGroupOutView,
    i: int,
)
    requires
        0 <= i < req.pairs@.len(),
        holds_matrix(cfg, rd, req, sweeps),
        sound_matrix(rd, req, sweeps),
        forall|r: int|
            0 <= r < req.pairs@.len() ==> row_ready(cfg, #[trigger] req.pairs@[r], sweeps),
        !texts(req.pairs@[i].transports@).contains("udp"@) || swept_directions(
            req.pairs@[i],
            sweeps,
        ).len() == 0,
    ensures
        ({
            let st = import_to(rd, cfg, default_udp, default_tcp, cfg.tests@.len() as int);
            finish_to(st.rows, default_tcp, st.rows.len() as int).1[i].udp_groups == seq![0usize]
        }),
{
    let total = req.pairs@.len() as int;
    let pair = req.pairs@[i];
    let profiles = cfg.link_profiles.by_nic@;
    let from = tests_before(rd, req, sweeps, i);
    let to = tests_before(rd, req, sweeps, i + 1);
    assert(tests_before(rd, req, sweeps, total) == cfg.tests@.len());
    assert forall|k: int| 0 <= k < cfg.tests@.len() implies tells_bandwidth(
        profiles,
        #[trigger] cfg.tests@[k],
    ) by {
        lemma_all_tell_bandwidth(cfg, rd, req, sweeps, default_udp, total, k);
    }
    lemma_rows_udp(cfg, rd, req, sweeps, default_udp, default_tcp, total, arbitrary(), 0);
    assert(row_ready(cfg, pair, sweeps));
    lemma_tests_of_row(cfg, rd, req, sweeps, i);
    lemma_row_tests_shape(cfg, rd, req, sweeps, i);
    assert forall|j: int| from <= j < to implies !tells_group(
        profiles,
        #[trigger] cfg.tests@[j],
        cfg.tests@[j].src@,
        cfg.tests@[j].dst@,
    ) by {
        let m = j - from;
        let test = cfg.tests@[from + m];
        assert(is_row_test(test@, rd, pair));
        if texts(pair.transports@).contains("udp"@) {
            lemma_pinned_test_tells_nothing(cfg, rd, pair, sweeps, test);
        } else {
            lemma_shown(test, rd, pair);
        }
    }
    let st = import_to(rd, cfg, default_udp, default_tcp, cfg.tests@.len() as int);
    assert(row_matches_udp(st, cfg, default_udp, i, from, to, arbitrary(), 0));
    lemma_finish(st.rows, default_tcp, total);
}

/// What the rows of an accepted matrix run over UDP can be told from their tests.
pub(crate) proof fn lemma_rows_ready(state: UiState, rd: Readings, req: RunRequest, cfg: Config)
    requires
        udp_groups_told(rd, req, 0) is Ok,
        default_loads_complete(state, rd, req),
        forall|r: int|
            0 <= r < req.pairs@.len() ==> pins_agree(
                cfg,
                #[trigger] req.pairs@[r],
                sweeps_of(req, base_config(state, rd, req)),
            ),
    ensures
        forall|r: int|
            0 <= r < req.pairs@.len() ==> row_ready(
                cfg,
                #[trigger] req.pairs@[r],
                sweeps_of(req, base_config(state, rd, req)),
            ),
{
    let sweeps = sweeps_of(req, base_config(state, rd, req));
    let last = req.udp_groups@.len() as int;
    assert forall|r: int| 0 <= r < req.pairs@.len() implies row_ready(
        cfg,
        #[trigger] req.pairs@[r],
        sweeps,
    ) by {
        let pair = req.pairs@[r];
        assert forall|g: int| 0 <= g < chosen_groups(pair.udp_groups@).len() implies complete(
            (#[trigger] udp_chosen(pair, sweeps, g)).loads(),
        ) && udp_chosen(pair, sweeps, g).streams > 0 by {
            let number = chosen_groups(pair.udp_groups@)[g];
            lemma_udp_groups_complete(state, rd, req, last, 0);
            if number <= last {
                lemma_udp_groups_complete(state, rd, req, last, number as int);
            }
        }
    }
}

pub(crate) proof fn lemma_udp_groups_accepted(state: UiState, rd: Readings, req: RunRequest)
    requires
        request_told(state, rd, req) is Ok,
    ensures
        udp_groups_told(rd, req, 0) is Ok,
{
}

} // verus!
