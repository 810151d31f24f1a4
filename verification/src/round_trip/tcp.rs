//! What the rows of a matrix run over TCP, before and after a round trip.
use vstd::prelude::*;
use vstd::string::*;
use crate::config::{Config, TestSpec, TestSpecView};
use crate::import::{
    count_or, finish_to, finished_row, import_to, norm, risen, row_groups_to, same_tcp_run,
    steps_group, steps_index, steps_order, steps_order_to, steps_slot, tcp_group_index, with_index,
    with_number, with_steps, with_tcp_group, ImportRowView, TcpGroupOutView, TcpStepsView,
    UdpGroupOutView,
};
use crate::model::{PairSelection, RunRequest, UiState};
use crate::plan::{
    base_config, chosen_groups, group_at, pair_tests, ping_test, sweeps_of, tcp_group_tests,
    tcp_groups_to, tcp_test, tcp_tests_to, udp_tests_to, SweepsView,
};
use crate::readings::Readings;
use crate::round_trip::rows::{
    all_ends_spelled, bare, holds_matrix, is_row_test, lemma_chosen_groups, lemma_finish,
    lemma_pair_tests, lemma_rows, lemma_shown, lemma_sound, lemma_tcp_group_tests,
    lemma_tcp_groups_have_steps, lemma_tcp_tests, lemma_tests_of_row, lemma_udp_tests, lemma_words,
    plain_row, row_fold, row_tests, rows_differ, sound_matrix, steps_given, tests_before, word_of,
};
use crate::suite_plan::request_config;
use crate::text::texts;
use crate::validate_plan::request_told;

verus! {

// ---------------------------------------------------------------------------
// TCP groups
// ---------------------------------------------------------------------------

/// Whether steps run a list of windows with a number of streams.
pub open spec fn steps_run(tcp: Seq<TcpStepsView>, windows: Seq<Seq<char>>, streams: u32) -> bool {
    exists|i: int|
        0 <= i < tcp.len() && (#[trigger] tcp[i]).windows == windows && tcp[i].streams.contains(
            streams,
        )
}

pub(crate) proof fn lemma_steps_index(tcp: Seq<TcpStepsView>, windows: Seq<Seq<char>>, i: int)
    requires
        0 <= i <= tcp.len(),
    ensures
        i <= steps_index(tcp, windows, i) <= tcp.len(),
        steps_index(tcp, windows, i) < tcp.len() ==> tcp[steps_index(tcp, windows, i)].windows
            == windows,
    decreases tcp.len() - i,
{
    if i < tcp.len() && tcp[i].windows != windows {
        lemma_steps_index(tcp, windows, i + 1);
    }
}

pub(crate) proof fn lemma_with_number(list: Seq<u32>, x: u32)
    ensures
        forall|y: u32| #[trigger] with_number(list, x).contains(y) <==> list.contains(y) || y == x,
{
    let after = with_number(list, x);
    assert forall|y: u32| #[trigger] after.contains(y) <==> list.contains(y) || y == x by {
        if list.contains(y) {
            let i = choose|i: int| 0 <= i < list.len() && list[i] == y;
            assert(after[i] == y);
        }
        if y == x && !list.contains(x) {
            assert(after[list.len() as int] == y);
        }
    }
}

pub(crate) proof fn lemma_with_steps(
    tcp: Seq<TcpStepsView>,
    windows: Seq<Seq<char>>,
    streams: u32,
    w: Seq<Seq<char>>,
    n: u32,
)
    ensures
        steps_run(with_steps(tcp, windows, streams), w, n) <==> steps_run(tcp, w, n) || (w
            == windows && n == streams),
        with_steps(tcp, windows, streams).len() <= tcp.len() + 1,
{
    let after = with_steps(tcp, windows, streams);
    let at = steps_index(tcp, windows, 0);
    lemma_steps_index(tcp, windows, 0);
    if at < tcp.len() {
        lemma_with_number(tcp[at].streams, streams);
    }
    if steps_run(after, w, n) {
        let i = choose|i: int|
            0 <= i < after.len() && (#[trigger] after[i]).windows == w && after[i].streams.contains(
                n,
            );
        if at < tcp.len() {
            if i != at {
                assert(tcp[i] == after[i]);
            } else if tcp[at].streams.contains(n) {
                assert(tcp[at].windows == w);
            }
        } else if i < tcp.len() {
            assert(tcp[i] == after[i]);
        } else {
            let only = seq![streams];
            let k = choose|k: int| 0 <= k < only.len() && only[k] == n;
        }
    }
    if steps_run(tcp, w, n) {
        let i = choose|i: int|
            0 <= i < tcp.len() && (#[trigger] tcp[i]).windows == w && tcp[i].streams.contains(n);
        assert(after[i].windows == w && after[i].streams.contains(n));
    }
    if w == windows && n == streams {
        if at < tcp.len() {
            assert(after[at].windows == w && after[at].streams.contains(n));
        } else {
            assert(after[tcp.len() as int].streams[0] == n);
            assert(after[tcp.len() as int].windows == w && after[tcp.len() as int].streams.contains(
                n,
            ));
        }
    }
}

/// Whether a test runs TCP with a list of windows and a number of streams.
pub open spec fn runs_tcp(t: TestSpecView, w: Seq<Seq<char>>, n: u32) -> bool {
    word_of(t) == "tcp"@ && t.tcp_windows == Some(w) && count_or(t.tcp_streams, 1) == n
}

pub(crate) proof fn lemma_fold_steps(
    rd: Readings,
    pair: PairSelection,
    tests: Seq<TestSpec>,
    default_tcp: TcpGroupOutView,
    k: int,
    w: Seq<Seq<char>>,
    n: u32,
)
    requires
        0 <= k <= tests.len(),
        forall|j: int| 0 <= j < k ==> is_row_test((#[trigger] tests[j])@, rd, pair),
        forall|j: int|
            0 <= j < k ==> (word_of((#[trigger] tests[j])@) == "tcp"@ ==> tests[j]@.tcp_windows is Some),
    ensures
        steps_run(row_fold(pair.src@, pair.dst@, tests, default_tcp, k).tcp, w, n) <==> exists|
            j: int,
        |
            0 <= j < k && runs_tcp((#[trigger] tests[j])@, w, n),
        row_fold(pair.src@, pair.dst@, tests, default_tcp, k).tcp.len() <= k,
    decreases k,
{
    let after = row_fold(pair.src@, pair.dst@, tests, default_tcp, k).tcp;
    if k > 0 {
        lemma_fold_steps(rd, pair, tests, default_tcp, k - 1, w, n);
        let before = row_fold(pair.src@, pair.dst@, tests, default_tcp, k - 1).tcp;
        let test = tests[k - 1];
        assert(is_row_test(test@, rd, pair));
        lemma_shown(test, rd, pair);
        if word_of(test@) == "tcp"@ {
            let windows = texts(test.tcp_windows->0@);
            assert(test@.tcp_windows == Some(windows));
            lemma_with_steps(before, windows, count_or(test.tcp_streams, 1), w, n);
            assert(after == with_steps(before, windows, count_or(test.tcp_streams, 1)));
        } else {
            assert(after == before);
        }
        if steps_run(before, w, n) {
            let j = choose|j: int| 0 <= j < k - 1 && runs_tcp((#[trigger] tests[j])@, w, n);
            assert(0 <= j < k && runs_tcp(tests[j]@, w, n));
        }
        if runs_tcp(test@, w, n) {
            assert(0 <= k - 1 < k && runs_tcp(tests[k - 1]@, w, n));
        }
        if exists|j: int| 0 <= j < k && runs_tcp((#[trigger] tests[j])@, w, n) {
            let j = choose|j: int| 0 <= j < k && runs_tcp((#[trigger] tests[j])@, w, n);
            if j < k - 1 {
                assert(0 <= j < k - 1 && runs_tcp(tests[j]@, w, n));
            }
        }
    } else {
        assert(after.len() == 0);
    }
}

/// Whether a row of the matrix runs TCP with a list of windows and a number of streams.
pub open spec fn row_runs_tcp(
    pair: PairSelection,
    sweeps: SweepsView,
    w: Seq<Seq<char>>,
    n: u32,
) -> bool {
    texts(pair.transports@).contains("tcp"@) && exists|g: int|
        0 <= g < chosen_groups(pair.tcp_groups@).len() && group_at(
            sweeps.tcp_groups,
            #[trigger] chosen_groups(pair.tcp_groups@)[g],
        ).windows == w && group_at(
            sweeps.tcp_groups,
            chosen_groups(pair.tcp_groups@)[g],
        ).stream_steps.contains(n)
}

/// Whether every number of streams is one to run with.
pub open spec fn steps_positive(sweeps: SweepsView) -> bool {
    forall|group: usize, n: u32| #[trigger]
        group_at(sweeps.tcp_groups, group).stream_steps.contains(n) ==> n > 0
}

pub(crate) proof fn lemma_tcp_tests_run(
    rd: Readings,
    idx: usize,
    pair: PairSelection,
    sweeps: SweepsView,
    k: int,
    w: Seq<Seq<char>>,
    n: u32,
)
    requires
        0 <= k <= chosen_groups(pair.tcp_groups@).len(),
        steps_given(sweeps),
        steps_positive(sweeps),
        plain_row(pair),
    ensures
        forall|j: int|
            0 <= j < tcp_tests_to(rd, idx, pair, sweeps, k).len() ==> (#[trigger] tcp_tests_to(
                rd,
                idx,
                pair,
                sweeps,
                k,
            )[j]).tcp_windows is Some,
        (exists|j: int|
            0 <= j < tcp_tests_to(rd, idx, pair, sweeps, k).len() && runs_tcp(
                #[trigger] tcp_tests_to(rd, idx, pair, sweeps, k)[j],
                w,
                n,
            )) <==> (exists|g: int|
            0 <= g < k && group_at(
                sweeps.tcp_groups,
                #[trigger] chosen_groups(pair.tcp_groups@)[g],
            ).windows == w && group_at(
                sweeps.tcp_groups,
                chosen_groups(pair.tcp_groups@)[g],
            ).stream_steps.contains(n)),
    decreases k,
{
    let chosen = chosen_groups(pair.tcp_groups@);
    if k > 0 {
        lemma_tcp_tests_run(rd, idx, pair, sweeps, k - 1, w, n);
        lemma_words();
        lemma_tcp_tests(rd, idx, pair, sweeps, k);
        let before = tcp_tests_to(rd, idx, pair, sweeps, k - 1);
        let group = chosen[k - 1];
        let it = group_at(sweeps.tcp_groups, group);
        let steps = it.stream_steps;
        lemma_tcp_group_tests(rd, idx, pair, sweeps, group, steps.len() as int);
        let more = tcp_group_tests(rd, idx, pair, sweeps, group);
        let all = tcp_tests_to(rd, idx, pair, sweeps, k);
        assert(all == before + more);
        assert forall|j: int| 0 <= j < all.len() implies (#[trigger] all[j]).tcp_windows is Some by {
            if j < before.len() {
                assert(all[j] == before[j]);
            } else {
                assert(all[j] == more[j - before.len()]);
            }
        }
        assert forall|j: int| 0 <= j < more.len() implies runs_tcp(#[trigger] more[j], w, n) == (
        it.windows == w && steps[j] == n) by {
            assert(all[before.len() + j] == more[j]);
            assert(steps.contains(steps[j]));
            assert(more[j] == tcp_test(rd, idx, pair, sweeps, group, steps[j]));
        }
        if exists|j: int| 0 <= j < all.len() && runs_tcp(#[trigger] all[j], w, n) {
            let j = choose|j: int| 0 <= j < all.len() && runs_tcp(#[trigger] all[j], w, n);
            if j < before.len() {
                assert(runs_tcp(before[j], w, n));
                let g = choose|g: int|
                    0 <= g < k - 1 && group_at(sweeps.tcp_groups, #[trigger] chosen[g]).windows == w
                        && group_at(sweeps.tcp_groups, chosen[g]).stream_steps.contains(n);
                assert(0 <= g < k && group_at(sweeps.tcp_groups, chosen[g]).windows == w);
            } else {
                let m = j - before.len();
                assert(more[m] == all[j]);
                assert(steps.contains(steps[m]));
                assert(group_at(sweeps.tcp_groups, chosen[k - 1]).windows == w);
            }
        }
        if exists|g: int|
            0 <= g < k && group_at(sweeps.tcp_groups, #[trigger] chosen[g]).windows == w && group_at(
                sweeps.tcp_groups,
                chosen[g],
            ).stream_steps.contains(n) {
            let g = choose|g: int|
                0 <= g < k && group_at(sweeps.tcp_groups, #[trigger] chosen[g]).windows == w
                    && group_at(sweeps.tcp_groups, chosen[g]).stream_steps.contains(n);
            if g < k - 1 {
                assert(0 <= g < k - 1 && group_at(sweeps.tcp_groups, chosen[g]).windows == w);
                let j = choose|j: int| 0 <= j < before.len() && runs_tcp(#[trigger] before[j], w, n);
                assert(all[j] == before[j]);
            } else {
                let m = choose|m: int| 0 <= m < steps.len() && steps[m] == n;
                assert(runs_tcp(more[m], w, n));
                assert(all[before.len() + m] == more[m]);
            }
        }
    }
}

/// The steps of a row that was read run what the row of the matrix runs.
pub(crate) proof fn lemma_row_steps(
    cfg: Config,
    rd: Readings,
    req: RunRequest,
    sweeps: SweepsView,
    default_tcp: TcpGroupOutView,
    i: int,
    w: Seq<Seq<char>>,
    n: u32,
)
    requires
        0 <= i < req.pairs@.len(),
        holds_matrix(cfg, rd, req, sweeps),
        sound_matrix(rd, req, sweeps),
        steps_positive(sweeps),
    ensures
        ({
            let row = row_fold(
                req.pairs@[i].src@,
                req.pairs@[i].dst@,
                cfg.tests@.subrange(tests_before(rd, req, sweeps, i), cfg.tests@.len() as int),
                default_tcp,
                row_tests(rd, req, sweeps, i).len() as int,
            );
            &&& steps_run(row.tcp, w, n) <==> row_runs_tcp(req.pairs@[i], sweeps, w, n)
            &&& row.tcp.len() <= row_tests(rd, req, sweeps, i).len()
        }),
{
    let pair = req.pairs@[i];
    let idx = i as usize;
    lemma_words();
    lemma_tests_of_row(cfg, rd, req, sweeps, i);
    lemma_pair_tests(rd, idx, pair, req, sweeps);
    let groups = chosen_groups(pair.tcp_groups@).len() as int;
    lemma_tcp_tests(rd, idx, pair, sweeps, groups);
    lemma_tcp_tests_run(rd, idx, pair, sweeps, groups, w, n);
    lemma_udp_tests(rd, idx, pair, req, sweeps, chosen_groups(pair.udp_groups@).len() as int);
    let transports = texts(pair.transports@);
    let tcp = if transports.contains("tcp"@) {
        tcp_tests_to(rd, idx, pair, sweeps, groups)
    } else {
        Seq::empty()
    };
    let plain = pair_tests(rd, idx, pair, req, sweeps);
    let own = row_tests(rd, req, sweeps, i);
    let from = tests_before(rd, req, sweeps, i);
    let tests = cfg.tests@.subrange(from, cfg.tests@.len() as int);
    let count = own.len() as int;
    assert(tcp.len() <= plain.len());
    assert forall|j: int| 0 <= j < tcp.len() implies plain[j] == #[trigger] tcp[j] by {}
    assert forall|j: int| tcp.len() <= j < plain.len() implies word_of(#[trigger] plain[j])
        != "tcp"@ by {
        let udp = if transports.contains("udp"@) {
            udp_tests_to(rd, idx, pair, req, sweeps, chosen_groups(pair.udp_groups@).len() as int)
        } else {
            Seq::empty()
        };
        if j < tcp.len() + udp.len() {
            assert(plain[j] == udp[j - tcp.len()]);
        } else {
            assert(plain[j] == ping_test(rd, idx, pair, req, sweeps));
        }
    }
    assert forall|j: int| 0 <= j < count implies is_row_test((#[trigger] tests[j])@, rd, pair)
        && tests[j]@ == own[j] && (word_of(tests[j]@) == "tcp"@ ==> tests[j]@.tcp_windows is Some)
        && runs_tcp(tests[j]@, w, n) == runs_tcp(plain[j], w, n) by {
        assert(tests[j] == cfg.tests@[from + j]);
        assert(is_row_test(own[j], rd, pair));
        assert(word_of(own[j]) == word_of(plain[j]));
        if word_of(plain[j]) == "tcp"@ {
            assert(j < tcp.len());
            assert(plain[j] == tcp[j]);
        }
    }
    lemma_fold_steps(rd, pair, tests, default_tcp, count, w, n);
    let row = row_fold(pair.src@, pair.dst@, tests, default_tcp, count);
    if steps_run(row.tcp, w, n) {
        let j = choose|j: int| 0 <= j < count && runs_tcp((#[trigger] tests[j])@, w, n);
        assert(runs_tcp(plain[j], w, n));
        assert(j < tcp.len());
        assert(runs_tcp(tcp[j], w, n));
        assert(transports.contains("tcp"@));
    }
    if row_runs_tcp(pair, sweeps, w, n) {
        let j = choose|j: int| 0 <= j < tcp.len() && runs_tcp(#[trigger] tcp[j], w, n);
        assert(plain[j] == tcp[j]);
        assert(0 <= j < count && runs_tcp(tests[j]@, w, n));
    }
}

/// The TCP group with a number: zero is the default group.
pub open spec fn tcp_numbered(
    groups: Seq<TcpGroupOutView>,
    default_tcp: TcpGroupOutView,
    number: usize,
) -> TcpGroupOutView {
    if number == 0 {
        default_tcp
    } else {
        groups[number - 1]
    }
}

/// Whether every number stands for a group.
pub open spec fn numbers_known(count: nat, numbers: Seq<usize>) -> bool {
    forall|k: int| 0 <= k < numbers.len() ==> #[trigger] numbers[k] <= count
}

/// Whether one of the groups with these numbers runs a list of windows with a number of streams.
pub open spec fn numbers_run_tcp(
    groups: Seq<TcpGroupOutView>,
    default_tcp: TcpGroupOutView,
    numbers: Seq<usize>,
    w: Seq<Seq<char>>,
    n: u32,
) -> bool {
    exists|k: int|
        0 <= k < numbers.len() && tcp_numbered(
            groups,
            default_tcp,
            #[trigger] numbers[k],
        ).windows == w && tcp_numbered(groups, default_tcp, numbers[k]).streams.contains(n)
}

/// Whether a list starts with another.
pub open spec fn extends<T>(longer: Seq<T>, shorter: Seq<T>) -> bool {
    shorter.len() <= longer.len() && forall|k: int|
        0 <= k < shorter.len() ==> #[trigger] longer[k] == shorter[k]
}

pub(crate) proof fn lemma_norm(list: Seq<u32>, x: u32)
    ensures
        norm(list).contains(x) <==> list.contains(x),
        risen(list).contains(x) <==> list.contains(x),
{
    broadcast use vstd::seq_lib::group_to_multiset_ensures;

    crate::import::lemma_risen_sorts(list);
    crate::sweep::lemma_deduped(risen(list));
    assert(risen(list).to_multiset().count(x) == list.to_multiset().count(x));
}

pub(crate) proof fn lemma_tcp_group_index(groups: Seq<TcpGroupOutView>, group: TcpGroupOutView, i: int)
    requires
        0 <= i <= groups.len(),
    ensures
        i <= tcp_group_index(groups, group, i) <= groups.len(),
        tcp_group_index(groups, group, i) < groups.len() ==> same_tcp_run(
            groups[tcp_group_index(groups, group, i)],
            group,
        ),
    decreases groups.len() - i,
{
    if i < groups.len() && !same_tcp_run(groups[i], group) {
        lemma_tcp_group_index(groups, group, i + 1);
    }
}

/// The group that is found or added for steps runs what they run.
pub(crate) proof fn lemma_with_tcp_group(
    known: Seq<TcpGroupOutView>,
    default_tcp: TcpGroupOutView,
    steps: TcpStepsView,
    n: u32,
)
    requires
        known.len() < usize::MAX,
    ensures
        ({
            let (after, number) = with_tcp_group(known, default_tcp, steps_group(steps));
            let it = tcp_numbered(after, default_tcp, number);
            &&& extends(after, known)
            &&& after.len() <= known.len() + 1
            &&& number <= after.len()
            &&& it.windows == steps.windows
            &&& it.streams.contains(n) <==> steps.streams.contains(n)
        }),
{
    let group = steps_group(steps);
    lemma_tcp_group_index(known, group, 0);
    let (after, number) = with_tcp_group(known, default_tcp, group);
    let it = tcp_numbered(after, default_tcp, number);
    lemma_norm(steps.streams, n);
    lemma_norm(group.streams, n);
    lemma_norm(it.streams, n);
}

pub(crate) proof fn lemma_with_index(list: Seq<usize>, x: usize)
    ensures
        extends(with_index(list, x), list),
        with_index(list, x).contains(x),
        forall|k: int|
            list.len() <= k < with_index(list, x).len() ==> #[trigger] with_index(list, x)[k] == x,
        with_index(list, x).len() > 0,
{
    if !list.contains(x) {
        assert(with_index(list, x)[list.len() as int] == x);
    }
}

/// The TCP groups that are found for a row run what its first `k` steps in order run.
pub(crate) proof fn lemma_row_groups(
    groups: Seq<TcpGroupOutView>,
    tcp: Seq<TcpStepsView>,
    default_tcp: TcpGroupOutView,
    k: int,
    w: Seq<Seq<char>>,
    n: u32,
)
    requires
        0 <= k <= tcp.len(),
        groups.len() + k <= usize::MAX,
    ensures
        ({
            let (after, numbers) = row_groups_to(groups, tcp, default_tcp, k);
            &&& extends(after, groups)
            &&& after.len() <= groups.len() + k
            &&& numbers_known(after.len(), numbers)
            &&& k > 0 ==> numbers.len() > 0
            &&& numbers_run_tcp(after, default_tcp, numbers, w, n) <==> exists|m: int|
                0 <= m < k && tcp[(#[trigger] steps_order(tcp)[m]) as int].windows == w
                    && tcp[steps_order(tcp)[m] as int].streams.contains(n)
        }),
    decreases k,
{
    if k > 0 {
        lemma_row_groups(groups, tcp, default_tcp, k - 1, w, n);
        let order = steps_order(tcp);
        let (known, before) = row_groups_to(groups, tcp, default_tcp, k - 1);
        let steps = tcp[order[k - 1] as int];
        lemma_with_tcp_group(known, default_tcp, steps, n);
        let (after, number) = with_tcp_group(known, default_tcp, steps_group(steps));
        let numbers = with_index(before, number);
        assert(row_groups_to(groups, tcp, default_tcp, k) == (after, numbers));
        lemma_with_index(before, number);
        assert forall|j: int| 0 <= j < before.len() implies tcp_numbered(
            after,
            default_tcp,
            #[trigger] before[j],
        ) == tcp_numbered(known, default_tcp, before[j]) && numbers[j] == before[j] by {
            assert(before[j] <= known.len());
        }
        if numbers_run_tcp(after, default_tcp, numbers, w, n) {
            let j = choose|j: int|
                0 <= j < numbers.len() && tcp_numbered(
                    after,
                    default_tcp,
                    #[trigger] numbers[j],
                ).windows == w && tcp_numbered(after, default_tcp, numbers[j]).streams.contains(n);
            if j < before.len() {
                assert(numbers[j] == before[j]);
                assert(numbers_run_tcp(known, default_tcp, before, w, n));
                let m = choose|m: int|
                    0 <= m < k - 1 && tcp[(#[trigger] order[m]) as int].windows == w
                        && tcp[order[m] as int].streams.contains(n);
                assert(0 <= m < k && tcp[order[m] as int].windows == w);
            } else {
                assert(numbers[j] == number);
                assert(tcp[order[k - 1] as int].windows == w);
            }
        }
        if exists|m: int|
            0 <= m < k && tcp[(#[trigger] order[m]) as int].windows == w
                && tcp[order[m] as int].streams.contains(n) {
            let m = choose|m: int|
                0 <= m < k && tcp[(#[trigger] order[m]) as int].windows == w
                    && tcp[order[m] as int].streams.contains(n);
            if m < k - 1 {
                assert(0 <= m < k - 1 && tcp[order[m] as int].windows == w);
                let j = choose|j: int|
                    0 <= j < before.len() && tcp_numbered(
                        known,
                        default_tcp,
                        #[trigger] before[j],
                    ).windows == w && tcp_numbered(
                        known,
                        default_tcp,
                        before[j],
                    ).streams.contains(n);
                assert(numbers[j] == before[j]);
            } else {
                let j = choose|j: int| 0 <= j < numbers.len() && numbers[j] == number;
                assert(tcp_numbered(after, default_tcp, numbers[j]).windows == w);
            }
        }
    }
}

pub(crate) proof fn lemma_steps_slot_range(
    placed: Seq<usize>,
    tcp: Seq<TcpStepsView>,
    windows: Seq<Seq<char>>,
    k: int,
)
    requires
        0 <= k <= placed.len(),
    ensures
        0 <= steps_slot(placed, tcp, windows, k) <= k,
    decreases k,
{
    if k > 0 {
        lemma_steps_slot_range(placed, tcp, windows, k - 1);
    }
}

/// The order of steps leaves none out.
pub(crate) proof fn lemma_steps_order_covers(tcp: Seq<TcpStepsView>, n: int)
    requires
        0 <= n <= tcp.len(),
        tcp.len() <= usize::MAX,
    ensures
        steps_order_to(tcp, n).len() == n,
        forall|k: int| 0 <= k < n ==> 0 <= #[trigger] steps_order_to(tcp, n)[k] < n,
        forall|x: int|
            0 <= x < n ==> #[trigger] steps_order_to(tcp, n).contains(x as usize),
    decreases n,
{
    if n > 0 {
        lemma_steps_order_covers(tcp, n - 1);
        let placed = steps_order_to(tcp, n - 1);
        let at = steps_slot(placed, tcp, tcp[n - 1].windows, placed.len() as int);
        lemma_steps_slot_range(placed, tcp, tcp[n - 1].windows, placed.len() as int);
        let all = steps_order_to(tcp, n);
        assert(all == placed.insert(at, (n - 1) as usize));
        assert forall|k: int| 0 <= k < n implies 0 <= #[trigger] all[k] < n by {
            if k < at {
                assert(all[k] == placed[k]);
            } else if k > at {
                assert(all[k] == placed[k - 1]);
            }
        }
        assert forall|x: int| 0 <= x < n implies #[trigger] all.contains(x as usize) by {
            if x == n - 1 {
                assert(all[at] == x as usize);
            } else {
                assert(placed.contains(x as usize));
                let k = choose|k: int| 0 <= k < placed.len() && placed[k] == x as usize;
                if k < at {
                    assert(all[k] == placed[k]);
                } else {
                    assert(all[k + 1] == placed[k]);
                }
            }
        }
    }
}

/// How many steps the first `n` rows have.
pub open spec fn steps_count(rows: Seq<ImportRowView>, n: int) -> nat
    decreases n,
{
    if n <= 0 {
        0
    } else {
        steps_count(rows, n - 1) + rows[n - 1].tcp.len()
    }
}

/// The TCP groups after `n` rows start with those after `i` rows.
pub(crate) proof fn lemma_finish_groups(
    rows: Seq<ImportRowView>,
    default_tcp: TcpGroupOutView,
    i: int,
    n: int,
)
    requires
        0 <= i <= n <= rows.len(),
        steps_count(rows, n) <= usize::MAX,
    ensures
        extends(finish_to(rows, default_tcp, n).0, finish_to(rows, default_tcp, i).0),
        finish_to(rows, default_tcp, n).0.len() <= steps_count(rows, n),
        steps_count(rows, i) <= steps_count(rows, n),
    decreases n,
{
    if n > 0 {
        if i < n {
            lemma_finish_groups(rows, default_tcp, i, n - 1);
        } else {
            lemma_finish_groups(rows, default_tcp, n - 1, n - 1);
        }
        let before = finish_to(rows, default_tcp, n - 1).0;
        let tcp = rows[n - 1].tcp;
        lemma_row_groups(before, tcp, default_tcp, tcp.len() as int, Seq::empty(), 0);
        let after = finish_to(rows, default_tcp, n).0;
        assert(after == row_groups_to(before, tcp, default_tcp, tcp.len() as int).0);
    }
}

pub(crate) proof fn lemma_nonzero_positive(values: Seq<u32>, n: int)
    requires
        0 <= n <= values.len(),
    ensures
        forall|k: int|
            0 <= k < crate::sweep::nonzero_to(values, n).len() ==> #[trigger] crate::sweep::nonzero_to(
                values,
                n,
            )[k] > 0,
    decreases n,
{
    if n > 0 {
        lemma_nonzero_positive(values, n - 1);
        let before = crate::sweep::nonzero_to(values, n - 1);
        let after = crate::sweep::nonzero_to(values, n);
        assert forall|k: int| 0 <= k < after.len() implies #[trigger] after[k] > 0 by {
            if k < before.len() {
                assert(after[k] == before[k]);
            }
        }
    }
}

pub(crate) proof fn lemma_tcp_steps_positive(req: RunRequest, windows: Seq<Seq<char>>, n: int, i: int, x: u32)
    requires
        0 <= i <= n <= req.tcp_groups@.len(),
        tcp_groups_to(req, windows, n)[i].stream_steps.contains(x),
    ensures
        x > 0,
    decreases n,
{
    lemma_tcp_groups_have_steps(req, windows, n);
    lemma_nonzero_positive(req.tcp_streams@, req.tcp_streams@.len() as int);
    if n > 0 {
        lemma_tcp_groups_have_steps(req, windows, n - 1);
        if i < n {
            assert(tcp_groups_to(req, windows, n)[i] == tcp_groups_to(req, windows, n - 1)[i]);
            lemma_tcp_steps_positive(req, windows, n - 1, i, x);
        } else {
            let values = req.tcp_groups@[n - 1].streams@;
            lemma_nonzero_positive(values, values.len() as int);
            let steps = tcp_groups_to(req, windows, n)[i].stream_steps;
            let k = choose|k: int| 0 <= k < steps.len() && steps[k] == x;
        }
    } else {
        let steps = tcp_groups_to(req, windows, 0)[0].stream_steps;
        let k = choose|k: int| 0 <= k < steps.len() && steps[k] == x;
    }
}

pub(crate) proof fn lemma_rows_steps_fit(
    cfg: Config,
    rd: Readings,
    req: RunRequest,
    sweeps: SweepsView,
    default_udp: UdpGroupOutView,
    default_tcp: TcpGroupOutView,
    rows: Seq<ImportRowView>,
    n: int,
)
    requires
        0 <= n <= req.pairs@.len(),
        holds_matrix(cfg, rd, req, sweeps),
        sound_matrix(rd, req, sweeps),
        steps_positive(sweeps),
        rows == import_to(rd, cfg, default_udp, default_tcp, cfg.tests@.len() as int).rows,
    ensures
        steps_count(rows, n) <= tests_before(rd, req, sweeps, n),
    decreases n,
{
    if n > 0 {
        lemma_rows_steps_fit(cfg, rd, req, sweeps, default_udp, default_tcp, rows, n - 1);
        lemma_rows(
            cfg,
            rd,
            req,
            sweeps,
            default_udp,
            default_tcp,
            req.pairs@.len() as int,
        );
        lemma_tests_of_row(cfg, rd, req, sweeps, n - 1);
        lemma_row_steps(cfg, rd, req, sweeps, default_tcp, n - 1, Seq::empty(), 0);
        assert(bare(rows[n - 1]).tcp == rows[n - 1].tcp);
    }
}

pub(crate) proof fn lemma_steps_positive(state: UiState, rd: Readings, req: RunRequest)
    ensures
        steps_positive(sweeps_of(req, base_config(state, rd, req))),
{
    let sweeps = sweeps_of(req, base_config(state, rd, req));
    let windows = base_config(state, rd, req).iperf.tcp_windows;
    let last = req.tcp_groups@.len() as int;
    lemma_tcp_groups_have_steps(req, windows, last);
    assert forall|group: usize, x: u32| #[trigger]
        group_at(sweeps.tcp_groups, group).stream_steps.contains(x) implies x > 0 by {
        if group < sweeps.tcp_groups.len() {
            lemma_tcp_steps_positive(req, windows, last, group as int, x);
        } else {
            lemma_tcp_steps_positive(req, windows, last, 0, x);
        }
    }
}

/// Numbers stand for the same groups in a longer list.
pub(crate) proof fn lemma_numbers_extend(
    longer: Seq<TcpGroupOutView>,
    shorter: Seq<TcpGroupOutView>,
    default_tcp: TcpGroupOutView,
    numbers: Seq<usize>,
    w: Seq<Seq<char>>,
    n: u32,
)
    requires
        extends(longer, shorter),
        numbers_known(shorter.len(), numbers),
    ensures
        numbers_known(longer.len(), numbers),
        numbers_run_tcp(longer, default_tcp, numbers, w, n) <==> numbers_run_tcp(
            shorter,
            default_tcp,
            numbers,
            w,
            n,
        ),
{
    assert forall|k: int| 0 <= k < numbers.len() implies #[trigger] numbers[k] <= longer.len()
        && tcp_numbered(longer, default_tcp, numbers[k]) == tcp_numbered(
        shorter,
        default_tcp,
        numbers[k],
    ) by {
        assert(numbers[k] <= shorter.len());
    }
    if numbers_run_tcp(longer, default_tcp, numbers, w, n) {
        let k = choose|k: int|
            0 <= k < numbers.len() && tcp_numbered(
                longer,
                default_tcp,
                #[trigger] numbers[k],
            ).windows == w && tcp_numbered(longer, default_tcp, numbers[k]).streams.contains(n);
        assert(tcp_numbered(shorter, default_tcp, numbers[k]).windows == w);
    }
    if numbers_run_tcp(shorter, default_tcp, numbers, w, n) {
        let k = choose|k: int|
            0 <= k < numbers.len() && tcp_numbered(
                shorter,
                default_tcp,
                #[trigger] numbers[k],
            ).windows == w && tcp_numbered(shorter, default_tcp, numbers[k]).streams.contains(n);
        assert(tcp_numbered(longer, default_tcp, numbers[k]).windows == w);
    }
}

/// The groups found for a row run what its steps run.
pub(crate) proof fn lemma_row_groups_run(
    groups: Seq<TcpGroupOutView>,
    tcp: Seq<TcpStepsView>,
    default_tcp: TcpGroupOutView,
    w: Seq<Seq<char>>,
    n: u32,
)
    requires
        groups.len() + tcp.len() <= usize::MAX,
    ensures
        ({
            let (after, numbers) = row_groups_to(groups, tcp, default_tcp, tcp.len() as int);
            &&& numbers_known(after.len(), numbers)
            &&& tcp.len() > 0 ==> numbers.len() > 0
            &&& numbers_run_tcp(after, default_tcp, numbers, w, n) <==> steps_run(tcp, w, n)
        }),
{
    let count = tcp.len() as int;
    lemma_row_groups(groups, tcp, default_tcp, count, w, n);
    lemma_steps_order_covers(tcp, count);
    let order = steps_order(tcp);
    if exists|m: int|
        0 <= m < count && tcp[(#[trigger] order[m]) as int].windows == w
            && tcp[order[m] as int].streams.contains(n) {
        let m = choose|m: int|
            0 <= m < count && tcp[(#[trigger] order[m]) as int].windows == w
                && tcp[order[m] as int].streams.contains(n);
        assert(tcp[order[m] as int].windows == w);
    }
    if steps_run(tcp, w, n) {
        let k = choose|k: int|
            0 <= k < tcp.len() && (#[trigger] tcp[k]).windows == w && tcp[k].streams.contains(n);
        assert(order.contains(k as usize));
        let m = choose|m: int| 0 <= m < order.len() && order[m] == k as usize;
        assert(tcp[order[m] as int].windows == w);
    }
}

/// A row with TCP has steps once its tests have been read.
pub(crate) proof fn lemma_row_has_steps(
    cfg: Config,
    rd: Readings,
    req: RunRequest,
    sweeps: SweepsView,
    default_tcp: TcpGroupOutView,
    i: int,
)
    requires
        0 <= i < req.pairs@.len(),
        holds_matrix(cfg, rd, req, sweeps),
        sound_matrix(rd, req, sweeps),
        steps_positive(sweeps),
        texts(req.pairs@[i].transports@).contains("tcp"@),
    ensures
        row_fold(
            req.pairs@[i].src@,
            req.pairs@[i].dst@,
            cfg.tests@.subrange(tests_before(rd, req, sweeps, i), cfg.tests@.len() as int),
            default_tcp,
            row_tests(rd, req, sweeps, i).len() as int,
        ).tcp.len() > 0,
{
    lemma_chosen_groups(req.pairs@[i].tcp_groups@);
    let first = chosen_groups(req.pairs@[i].tcp_groups@)[0];
    let one = group_at(sweeps.tcp_groups, first);
    assert(one.stream_steps.contains(one.stream_steps[0]));
    lemma_row_steps(
        cfg,
        rd,
        req,
        sweeps,
        default_tcp,
        i,
        one.windows,
        one.stream_steps[0],
    );
    assert(row_runs_tcp(req.pairs@[i], sweeps, one.windows, one.stream_steps[0]));
}

/// The groups found for a row of the matrix run what the row runs.
pub(crate) proof fn lemma_matrix_tcp(
    cfg: Config,
    rd: Readings,
    req: RunRequest,
    sweeps: SweepsView,
    default_udp: UdpGroupOutView,
    default_tcp: TcpGroupOutView,
    i: int,
    w: Seq<Seq<char>>,
    n: u32,
)
    requires
        0 <= i < req.pairs@.len(),
        holds_matrix(cfg, rd, req, sweeps),
        sound_matrix(rd, req, sweeps),
        steps_positive(sweeps),
        texts(req.pairs@[i].transports@).contains("tcp"@),
    ensures
        ({
            let st = import_to(rd, cfg, default_udp, default_tcp, cfg.tests@.len() as int);
            let (groups, pairs) = finish_to(st.rows, default_tcp, st.rows.len() as int);
            &&& numbers_known(groups.len(), pairs[i].tcp_groups)
            &&& numbers_run_tcp(groups, default_tcp, pairs[i].tcp_groups, w, n) <==> row_runs_tcp(
                req.pairs@[i],
                sweeps,
                w,
                n,
            )
        }),
{
    let total = req.pairs@.len() as int;
    lemma_rows(cfg, rd, req, sweeps, default_udp, default_tcp, total);
    let st = import_to(rd, cfg, default_udp, default_tcp, cfg.tests@.len() as int);
    let rows = st.rows;
    lemma_rows_steps_fit(cfg, rd, req, sweeps, default_udp, default_tcp, rows, total);
    lemma_finish(rows, default_tcp, total);
    assert(cfg.tests@.len() == cfg.tests.len());
    lemma_finish_groups(rows, default_tcp, i + 1, total);
    lemma_finish_groups(rows, default_tcp, i, i + 1);
    lemma_finish_groups(rows, default_tcp, i, i);
    lemma_row_steps(cfg, rd, req, sweeps, default_tcp, i, w, n);
    lemma_row_has_steps(cfg, rd, req, sweeps, default_tcp, i);
    let tcp = rows[i].tcp;
    assert(bare(rows[i]).tcp == tcp);
    let before = finish_to(rows, default_tcp, i).0;
    assert(steps_count(rows, i + 1) == steps_count(rows, i) + tcp.len());
    lemma_row_groups_run(before, tcp, default_tcp, w, n);
    let (after, numbers) = row_groups_to(before, tcp, default_tcp, tcp.len() as int);
    let (groups, pairs) = finish_to(rows, default_tcp, total);
    assert(finish_to(rows, default_tcp, i + 1).0 == after);
    assert(pairs[i] == finished_row(rows[i], numbers));
    assert(pairs[i].tcp_groups == numbers);
    lemma_numbers_extend(groups, after, default_tcp, numbers, w, n);
}

/// Importing what a checked matrix compiles to runs the same TCP tests: each row gets groups that
/// run the lists of windows and numbers of streams that its own groups run, and no others.
pub proof fn lemma_import_restores_tcp(
    state: UiState,
    rd: Readings,
    req: RunRequest,
    cfg: Config,
    default_udp: UdpGroupOutView,
    default_tcp: TcpGroupOutView,
    i: int,
    w: Seq<Seq<char>>,
    n: u32,
)
    requires
        request_told(state, rd, req) is Ok,
        req.ui_plan is None,
        rows_differ(req.pairs@),
        all_ends_spelled(rd, req.pairs@),
        cfg@ == request_config(state, rd, req),
        0 <= i < req.pairs@.len(),
        texts(req.pairs@[i].transports@).contains("tcp"@),
    ensures
        ({
            let st = import_to(rd, cfg, default_udp, default_tcp, cfg.tests@.len() as int);
            let (groups, pairs) = finish_to(st.rows, default_tcp, st.rows.len() as int);
            let sweeps = sweeps_of(req, base_config(state, rd, req));
            &&& numbers_known(groups.len(), pairs[i].tcp_groups)
            &&& numbers_run_tcp(groups, default_tcp, pairs[i].tcp_groups, w, n) <==> row_runs_tcp(
                req.pairs@[i],
                sweeps,
                w,
                n,
            )
        }),
{
    let sweeps = sweeps_of(req, base_config(state, rd, req));
    lemma_sound(state, rd, req, cfg);
    lemma_steps_positive(state, rd, req);
    lemma_matrix_tcp(cfg, rd, req, sweeps, default_udp, default_tcp, i, w, n);
}

} // verus!
