//! What importing comes to, whatever the configuration: rows and groups without repetitions.
use vstd::prelude::*;
use crate::config::{Config, NicProfile, TestSpec};
use crate::import::{
    count_or, empty_row, endpoint_spelled, finish_to, group_of, import_to, or_default,
    row_groups_to, row_index, row_with, same_tcp_run, same_udp_run, state_with, steps_group,
    steps_order, tcp_group_index, tells_group, udp_group_index, with_index, with_tcp_group,
    with_udp_group, ImportRowView, ImportStateView, PairImportView, TcpGroupOutView, TcpStepsView,
    UdpGroupOutView,
};
use crate::readings::Readings;
use crate::round_trip::rows::lemma_finish;
use crate::round_trip::tcp::{
    lemma_finish_groups, lemma_steps_index, lemma_with_index, numbers_known, steps_count,
};
use crate::text::{texts, views};

verus! {

/// Whether two rows join different ends, in either order.
pub open spec fn ends_apart(a: PairImportView, b: PairImportView) -> bool {
    !(a.src == b.src && a.dst == b.dst) && !(a.src == b.dst && a.dst == b.src)
}

/// Whether no two rows join the same ends, in either order.
pub open spec fn rows_apart(pairs: Seq<PairImportView>) -> bool {
    forall|i: int, j: int|
        0 <= i < j < pairs.len() ==> ends_apart(#[trigger] pairs[i], #[trigger] pairs[j])
}

/// Whether group numbers are given, each once, and stand for the default group or one of `count`
/// others.
pub open spec fn numbers_sound(numbers: Seq<usize>, count: nat) -> bool {
    numbers.len() > 0 && numbers.no_duplicates() && numbers_known(count, numbers)
}

/// Whether no two UDP groups run alike, nor one like the default group.
pub open spec fn udp_groups_apart(
    groups: Seq<UdpGroupOutView>,
    default_udp: UdpGroupOutView,
) -> bool {
    &&& forall|i: int|
        0 <= i < groups.len() ==> !same_udp_run(#[trigger] groups[i], default_udp)
    &&& forall|i: int, j: int|
        0 <= i < j < groups.len() ==> !same_udp_run(#[trigger] groups[i], #[trigger] groups[j])
}

/// Whether no two TCP groups run alike, nor one like the default group.
pub open spec fn tcp_groups_apart(
    groups: Seq<TcpGroupOutView>,
    default_tcp: TcpGroupOutView,
) -> bool {
    &&& forall|i: int|
        0 <= i < groups.len() ==> !same_tcp_run(#[trigger] groups[i], default_tcp)
    &&& forall|i: int, j: int|
        0 <= i < j < groups.len() ==> !same_tcp_run(#[trigger] groups[i], #[trigger] groups[j])
}

proof fn lemma_index_apart(list: Seq<usize>, x: usize)
    requires
        list.no_duplicates(),
    ensures
        with_index(list, x).no_duplicates(),
{
    let after = with_index(list, x);
    if !list.contains(x) {
        assert forall|i: int, j: int|
            0 <= i < after.len() && 0 <= j < after.len() && i != j implies after[i] != after[j] by {
            if i < list.len() {
                assert(list.contains(list[i]));
            }
            if j < list.len() {
                assert(list.contains(list[j]));
            }
        }
    }
}

// ---------------------------------------------------------------------------
// Groups
// ---------------------------------------------------------------------------

proof fn lemma_udp_index(groups: Seq<UdpGroupOutView>, group: UdpGroupOutView, i: int)
    requires
        0 <= i <= groups.len(),
    ensures
        i <= udp_group_index(groups, group, i) <= groups.len(),
        forall|k: int|
            i <= k < udp_group_index(groups, group, i) ==> !same_udp_run(
                #[trigger] groups[k],
                group,
            ),
    decreases groups.len() - i,
{
    if i < groups.len() && !same_udp_run(groups[i], group) {
        lemma_udp_index(groups, group, i + 1);
    }
}

proof fn lemma_udp_group_apart(
    groups: Seq<UdpGroupOutView>,
    default_udp: UdpGroupOutView,
    group: UdpGroupOutView,
)
    requires
        udp_groups_apart(groups, default_udp),
        groups.len() < usize::MAX,
    ensures
        ({
            let (after, number) = with_udp_group(groups, default_udp, group);
            &&& udp_groups_apart(after, default_udp)
            &&& groups.len() <= after.len() <= groups.len() + 1
            &&& number <= after.len()
        }),
{
    lemma_udp_index(groups, group, 0);
    let (after, number) = with_udp_group(groups, default_udp, group);
    assert forall|i: int, j: int| 0 <= i < j < after.len() implies !same_udp_run(
        #[trigger] after[i],
        #[trigger] after[j],
    ) by {
        assert(after[i] == groups[i]);
        if j < groups.len() {
            assert(after[j] == groups[j]);
        }
    }
    assert forall|i: int| 0 <= i < after.len() implies !same_udp_run(
        #[trigger] after[i],
        default_udp,
    ) by {
        if i < groups.len() {
            assert(after[i] == groups[i]);
        }
    }
}

proof fn lemma_tcp_index(groups: Seq<TcpGroupOutView>, group: TcpGroupOutView, i: int)
    requires
        0 <= i <= groups.len(),
    ensures
        i <= tcp_group_index(groups, group, i) <= groups.len(),
        forall|k: int|
            i <= k < tcp_group_index(groups, group, i) ==> !same_tcp_run(
                #[trigger] groups[k],
                group,
            ),
    decreases groups.len() - i,
{
    if i < groups.len() && !same_tcp_run(groups[i], group) {
        lemma_tcp_index(groups, group, i + 1);
    }
}

proof fn lemma_tcp_group_apart(
    groups: Seq<TcpGroupOutView>,
    default_tcp: TcpGroupOutView,
    group: TcpGroupOutView,
)
    requires
        tcp_groups_apart(groups, default_tcp),
        groups.len() < usize::MAX,
    ensures
        ({
            let (after, number) = with_tcp_group(groups, default_tcp, group);
            &&& tcp_groups_apart(after, default_tcp)
            &&& groups.len() <= after.len() <= groups.len() + 1
            &&& number <= after.len()
        }),
{
    lemma_tcp_index(groups, group, 0);
    let (after, number) = with_tcp_group(groups, default_tcp, group);
    assert forall|i: int, j: int| 0 <= i < j < after.len() implies !same_tcp_run(
        #[trigger] after[i],
        #[trigger] after[j],
    ) by {
        assert(after[i] == groups[i]);
        if j < groups.len() {
            assert(after[j] == groups[j]);
        }
    }
    assert forall|i: int| 0 <= i < after.len() implies !same_tcp_run(
        #[trigger] after[i],
        default_tcp,
    ) by {
        if i < groups.len() {
            assert(after[i] == groups[i]);
        }
    }
}

proof fn lemma_row_groups_apart(
    groups: Seq<TcpGroupOutView>,
    tcp: Seq<TcpStepsView>,
    default_tcp: TcpGroupOutView,
    n: int,
)
    requires
        0 <= n <= tcp.len(),
        tcp_groups_apart(groups, default_tcp),
        groups.len() + n <= usize::MAX,
    ensures
        ({
            let (after, numbers) = row_groups_to(groups, tcp, default_tcp, n);
            &&& tcp_groups_apart(after, default_tcp)
            &&& after.len() <= groups.len() + n
            &&& numbers.no_duplicates()
            &&& numbers_known(after.len(), numbers)
        }),
    decreases n,
{
    if n > 0 {
        lemma_row_groups_apart(groups, tcp, default_tcp, n - 1);
        let (known, numbers) = row_groups_to(groups, tcp, default_tcp, n - 1);
        let steps = tcp[steps_order(tcp)[n - 1] as int];
        lemma_tcp_group_apart(known, default_tcp, steps_group(steps));
        let (after, number) = with_tcp_group(known, default_tcp, steps_group(steps));
        lemma_index_apart(numbers, number);
        lemma_with_index(numbers, number);
        let all = with_index(numbers, number);
        assert forall|k: int| 0 <= k < all.len() implies #[trigger] all[k] <= after.len() by {
            if k < numbers.len() {
                assert(all[k] == numbers[k]);
            }
        }
    }
}

// ---------------------------------------------------------------------------
// Rows
// ---------------------------------------------------------------------------

/// What holds once `n` tests have been read.
spec fn tidy(st: ImportStateView, default_udp: UdpGroupOutView, n: int) -> bool {
    &&& forall|i: int, j: int|
        0 <= i < j < st.rows.len() ==> ends_apart(
            (#[trigger] st.rows[i]).pair,
            (#[trigger] st.rows[j]).pair,
        )
    &&& forall|i: int|
        0 <= i < st.rows.len() ==> (#[trigger] st.rows[i]).pair.udp_groups.no_duplicates()
            && numbers_known(st.groups.len(), st.rows[i].pair.udp_groups)
    &&& udp_groups_apart(st.groups, default_udp)
    &&& st.groups.len() <= n
    &&& steps_count(st.rows, st.rows.len() as int) <= n
}

proof fn lemma_row_steps_grow(
    row: ImportRowView,
    test: TestSpec,
    flip: bool,
    default_tcp: TcpGroupOutView,
)
    ensures
        row_with(row, test, flip, default_tcp).tcp.len() <= row.tcp.len() + 1,
{
    let windows = match test.tcp_windows {
        Some(windows) => texts(windows@),
        None => default_tcp.windows,
    };
    lemma_steps_index(row.tcp, windows, 0);
}

proof fn lemma_steps_count_update(rows: Seq<ImportRowView>, at: int, row: ImportRowView, n: int)
    requires
        0 <= at < rows.len(),
        0 <= n <= rows.len(),
    ensures
        steps_count(rows.update(at, row), n) == steps_count(rows, n) + if at < n {
            row.tcp.len() - rows[at].tcp.len()
        } else {
            0
        },
    decreases n,
{
    if n > 0 {
        lemma_steps_count_update(rows, at, row, n - 1);
    }
}

proof fn lemma_steps_count_push(rows: Seq<ImportRowView>, row: ImportRowView, n: int)
    requires
        0 <= n <= rows.len(),
    ensures
        steps_count(rows.push(row), n) == steps_count(rows, n),
    decreases n,
{
    if n > 0 {
        lemma_steps_count_push(rows, row, n - 1);
        assert(rows.push(row)[n - 1] == rows[n - 1]);
    }
}

proof fn lemma_row_place(rows: Seq<ImportRowView>, src: Seq<char>, dst: Seq<char>, i: int)
    requires
        0 <= i <= rows.len(),
    ensures
        i <= row_index(rows, src, dst, i) <= rows.len(),
        forall|k: int|
            i <= k < row_index(rows, src, dst, i) ==> !((#[trigger] rows[k]).pair.src == src
                && rows[k].pair.dst == dst),
    decreases rows.len() - i,
{
    if i < rows.len() && !(rows[i].pair.src == src && rows[i].pair.dst == dst) {
        lemma_row_place(rows, src, dst, i + 1);
    }
}

proof fn lemma_state_tidy(
    st: ImportStateView,
    profiles: Seq<NicProfile>,
    test: TestSpec,
    src: Seq<char>,
    dst: Seq<char>,
    at: int,
    flip: bool,
    default_udp: UdpGroupOutView,
    default_tcp: TcpGroupOutView,
    n: int,
)
    requires
        tidy(st, default_udp, n),
        0 <= at < st.rows.len(),
        n < usize::MAX,
    ensures
        tidy(
            state_with(st, profiles, test, src, dst, at, flip, default_udp, default_tcp),
            default_udp,
            n + 1,
        ),
{
    let after = state_with(st, profiles, test, src, dst, at, flip, default_udp, default_tcp);
    let row = row_with(st.rows[at], test, flip, default_tcp);
    lemma_row_steps_grow(st.rows[at], test, flip, default_tcp);
    lemma_steps_count_update(st.rows, at, after.rows[at], st.rows.len() as int);
    assert(after.rows =~= st.rows.update(at, after.rows[at]));
    let before = st.rows[at].pair.udp_groups;
    if tells_group(profiles, test, src, dst) {
        let loads = views(test.udp_profiles->0@);
        let group = group_of(
            loads,
            count_or(test.udp_streams, default_udp.streams),
        );
        lemma_udp_group_apart(st.groups, default_udp, group);
        let (groups, number) = with_udp_group(st.groups, default_udp, group);
        lemma_index_apart(before, number);
        lemma_with_index(before, number);
        let numbers = with_index(before, number);
        assert forall|k: int| 0 <= k < numbers.len() implies #[trigger] numbers[k]
            <= groups.len() by {
            if k < before.len() {
                assert(numbers[k] == before[k]);
            }
        }
    }
    assert forall|i: int| 0 <= i < after.rows.len() implies (
    #[trigger] after.rows[i]).pair.udp_groups.no_duplicates() && numbers_known(
        after.groups.len(),
        after.rows[i].pair.udp_groups,
    ) by {
        if i != at {
            assert(after.rows[i] == st.rows[i]);
            let numbers = st.rows[i].pair.udp_groups;
            assert forall|k: int| 0 <= k < numbers.len() implies #[trigger] numbers[k]
                <= after.groups.len() by {}
        }
    }
    assert forall|i: int, j: int| 0 <= i < j < after.rows.len() implies ends_apart(
        (#[trigger] after.rows[i]).pair,
        (#[trigger] after.rows[j]).pair,
    ) by {
        assert(after.rows[i].pair.src == st.rows[i].pair.src && after.rows[i].pair.dst
            == st.rows[i].pair.dst);
        assert(after.rows[j].pair.src == st.rows[j].pair.src && after.rows[j].pair.dst
            == st.rows[j].pair.dst);
        assert(ends_apart(st.rows[i].pair, st.rows[j].pair));
    }
}

proof fn lemma_import_tidy(
    rd: Readings,
    cfg: Config,
    default_udp: UdpGroupOutView,
    default_tcp: TcpGroupOutView,
    n: int,
)
    requires
        0 <= n <= cfg.tests@.len(),
    ensures
        tidy(import_to(rd, cfg, default_udp, default_tcp, n), default_udp, n),
    decreases n,
{
    if n > 0 {
        lemma_import_tidy(rd, cfg, default_udp, default_tcp, n - 1);
        assert(cfg.tests@.len() == cfg.tests.len());
        let st = import_to(rd, cfg, default_udp, default_tcp, n - 1);
        let test = cfg.tests@[n - 1];
        let profiles = cfg.link_profiles.by_nic@;
        match (endpoint_spelled(rd, test.src@), endpoint_spelled(rd, test.dst@)) {
            (Some(src), Some(dst)) => {
                let forth = row_index(st.rows, src, dst, 0);
                let back = row_index(st.rows, dst, src, 0);
                lemma_row_place(st.rows, src, dst, 0);
                lemma_row_place(st.rows, dst, src, 0);
                if forth < st.rows.len() {
                    lemma_state_tidy(
                        st,
                        profiles,
                        test,
                        src,
                        dst,
                        forth,
                        false,
                        default_udp,
                        default_tcp,
                        n - 1,
                    );
                } else if back < st.rows.len() {
                    lemma_state_tidy(
                        st,
                        profiles,
                        test,
                        src,
                        dst,
                        back,
                        true,
                        default_udp,
                        default_tcp,
                        n - 1,
                    );
                } else {
                    let count = st.rows.len() as int;
                    let grown = ImportStateView { rows: st.rows.push(empty_row(src, dst)), ..st };
                    lemma_steps_count_push(st.rows, empty_row(src, dst), count);
                    assert(steps_count(grown.rows, count + 1) == steps_count(grown.rows, count)
                        + grown.rows[count].tcp.len());
                    assert forall|i: int, j: int| 0 <= i < j < grown.rows.len() implies ends_apart(
                        (#[trigger] grown.rows[i]).pair,
                        (#[trigger] grown.rows[j]).pair,
                    ) by {
                        assert(grown.rows[i] == st.rows[i]);
                        if j < count {
                            assert(grown.rows[j] == st.rows[j]);
                        }
                    }
                    assert(tidy(grown, default_udp, n - 1));
                    lemma_state_tidy(
                        grown,
                        profiles,
                        test,
                        src,
                        dst,
                        count,
                        false,
                        default_udp,
                        default_tcp,
                        n - 1,
                    );
                }
            },
            _ => {},
        }
    }
}

proof fn lemma_finish_apart(rows: Seq<ImportRowView>, default_tcp: TcpGroupOutView, n: int)
    requires
        0 <= n <= rows.len(),
        steps_count(rows, n) <= usize::MAX,
    ensures
        tcp_groups_apart(finish_to(rows, default_tcp, n).0, default_tcp),
        forall|i: int|
            0 <= i < n ==> {
                let numbers = (#[trigger] finish_to(rows, default_tcp, n).1[i]).tcp_groups;
                numbers_sound(numbers, finish_to(rows, default_tcp, n).0.len())
            },
    decreases n,
{
    if n > 0 {
        lemma_finish_groups(rows, default_tcp, n - 1, n);
        lemma_finish_groups(rows, default_tcp, n - 1, n - 1);
        lemma_finish_apart(rows, default_tcp, n - 1);
        lemma_finish(rows, default_tcp, n - 1);
        let (groups, pairs) = finish_to(rows, default_tcp, n - 1);
        let tcp = rows[n - 1].tcp;
        lemma_row_groups_apart(groups, tcp, default_tcp, tcp.len() as int);
        let (after, numbers) = row_groups_to(groups, tcp, default_tcp, tcp.len() as int);
        let all = finish_to(rows, default_tcp, n).1;
        assert forall|i: int| 0 <= i < n implies numbers_sound(
            (#[trigger] all[i]).tcp_groups,
            after.len(),
        ) by {
            if i < n - 1 {
                assert(all[i] == pairs[i]);
                let own = pairs[i].tcp_groups;
                assert forall|k: int| 0 <= k < own.len() implies #[trigger] own[k]
                    <= after.len() by {}
            } else {
                assert(all[i].tcp_groups == or_default(numbers));
            }
        }
    }
}

/// Whatever a configuration holds, importing it gives rows and groups without repetitions: no two
/// rows join the same ends in either order, every row has group numbers, each once, that stand for
/// groups, and no two groups run alike, nor one like the default group.
pub proof fn lemma_import_is_tidy(
    rd: Readings,
    cfg: Config,
    default_udp: UdpGroupOutView,
    default_tcp: TcpGroupOutView,
)
    ensures
        ({
            let st = import_to(rd, cfg, default_udp, default_tcp, cfg.tests@.len() as int);
            let (tcp_groups, pairs) = finish_to(st.rows, default_tcp, st.rows.len() as int);
            &&& rows_apart(pairs)
            &&& forall|i: int|
                0 <= i < pairs.len() ==> numbers_sound(
                    (#[trigger] pairs[i]).udp_groups,
                    st.groups.len(),
                ) && numbers_sound(pairs[i].tcp_groups, tcp_groups.len())
            &&& udp_groups_apart(st.groups, default_udp)
            &&& tcp_groups_apart(tcp_groups, default_tcp)
        }),
{
    let count = cfg.tests@.len() as int;
    lemma_import_tidy(rd, cfg, default_udp, default_tcp, count);
    assert(cfg.tests@.len() == cfg.tests.len());
    let st = import_to(rd, cfg, default_udp, default_tcp, count);
    let total = st.rows.len() as int;
    lemma_finish(st.rows, default_tcp, total);
    lemma_finish_apart(st.rows, default_tcp, total);
    let (tcp_groups, pairs) = finish_to(st.rows, default_tcp, total);
    assert forall|i: int, j: int| 0 <= i < j < pairs.len() implies ends_apart(
        #[trigger] pairs[i],
        #[trigger] pairs[j],
    ) by {
        assert(ends_apart(st.rows[i].pair, st.rows[j].pair));
    }
    assert forall|i: int| 0 <= i < pairs.len() implies numbers_sound(
        (#[trigger] pairs[i]).udp_groups,
        st.groups.len(),
    ) && numbers_sound(pairs[i].tcp_groups, tcp_groups.len()) by {
        assert(pairs[i].udp_groups == or_default(st.rows[i].pair.udp_groups));
    }
}

} // verus!
