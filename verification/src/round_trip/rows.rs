//! The rows of a matrix, as importing the configuration that it compiles to gives them back.
use vstd::prelude::*;
use vstd::string::*;
use vstd::utf8::is_ascii_chars;
use crate::config::{Config, NicProfile, TestSpec, TestSpecView};
use crate::import::{
    directions_seen, empty_row, endpoint_spelled, finish_to, finished_row, holds_trimmed,
    import_step, import_to, known_to, row_groups_to, row_index, row_with, shown_transports,
    state_with, test_transports, with_texts, with_texts_to, ImportRowView, ImportStateView,
    PairImportView, TcpGroupOutView, UdpGroupOutView,
};
use crate::model::{PairSelection, RunRequest, UiState};
use crate::plan::{
    all_with_wifi_targets, base_config, chosen_groups, direction_pinned, directions_to,
    directions_where, group_at, matrix_tests_to, mbps_in, pair_bidir_targets, pair_tests, ping_test,
    sweeps_of, tcp_group_tests, tcp_group_tests_to, tcp_groups_to, tcp_test, tcp_tests_to,
    udp_group_tests, udp_tests_to, SweepsView,
};
use crate::readings::Readings;
use crate::suite::{directions_meant, directions_meant_to, with_text};
use crate::suite_plan::request_config;
use crate::sweep::lemma_take_one_more;
use crate::text::{in_small, lemma_trimmed_fixed, lowered, texts, trimmed, views};
use crate::validate::all_allowed;
use crate::validate_plan::{direction_of, pairs_told, request_told};

verus! {

// ---------------------------------------------------------------------------
// Rows
// ---------------------------------------------------------------------------

/// Whether two rows have the same ends, in either order.
pub open spec fn same_ends(a: PairSelection, b: PairSelection) -> bool {
    (a.src@ == b.src@ && a.dst@ == b.dst@) || (a.src@ == b.dst@ && a.dst@ == b.src@)
}

/// Whether no two rows have the same ends.
pub open spec fn rows_differ(pairs: Seq<PairSelection>) -> bool {
    forall|i: int, j: int|
        0 <= i < j < pairs.len() ==> !same_ends(#[trigger] pairs[i], #[trigger] pairs[j])
}

/// Whether the ends of a row are in their one spelling.
pub open spec fn ends_spelled(rd: Readings, pair: PairSelection) -> bool {
    endpoint_spelled(rd, pair.src@) == Some(pair.src@) && endpoint_spelled(rd, pair.dst@) == Some(
        pair.dst@,
    )
}

/// Whether the ends of all rows are in their one spelling.
pub open spec fn all_ends_spelled(rd: Readings, pairs: Seq<PairSelection>) -> bool {
    forall|i: int| 0 <= i < pairs.len() ==> ends_spelled(rd, #[trigger] pairs[i])
}

/// Whether two lists hold the same texts.
pub open spec fn same_members(a: Seq<Seq<char>>, b: Seq<Seq<char>>) -> bool {
    forall|x: Seq<char>| #[trigger] a.contains(x) <==> b.contains(x)
}

/// Whether a row that was read has the ends, directions, transports, address families and
/// thresholds of a row of the matrix.
pub open spec fn restores(row: PairImportView, rd: Readings, pair: PairSelection) -> bool {
    let bidir = texts(pair.directions@).contains("bidir"@);
    &&& row.src == pair.src@
    &&& row.dst == pair.dst@
    &&& same_members(row.directions, texts(pair.directions@))
    &&& row.directions.no_duplicates()
    &&& same_members(row.transports, texts(pair.transports@))
    &&& row.transports.no_duplicates()
    &&& same_members(row.ip, texts(pair.ip@))
    &&& row.ip.no_duplicates()
    &&& row.rx_target_bidir_ab == if bidir {
        mbps_in(rd, pair.rx_target_bidir_ab@)
    } else {
        None
    }
    &&& row.rx_target_bidir_ba == if bidir {
        mbps_in(rd, pair.rx_target_bidir_ba@)
    } else {
        None
    }
}

/// Whether a row asks only for what the matrix knows.
pub open spec fn plain_row(pair: PairSelection) -> bool {
    &&& all_allowed(texts(pair.directions@), seq!["ab"@, "ba"@, "bidir"@])
    &&& all_allowed(texts(pair.transports@), seq!["tcp"@, "udp"@, "ping"@])
    &&& all_allowed(texts(pair.ip@), seq!["v4"@, "v6"@])
}

// ---------------------------------------------------------------------------
// Lists
// ---------------------------------------------------------------------------

pub(crate) proof fn lemma_with_text(list: Seq<Seq<char>>, text: Seq<char>)
    ensures
        forall|x: Seq<char>| #[trigger]
            with_text(list, text).contains(x) <==> list.contains(x) || x == text,
        list.no_duplicates() ==> with_text(list, text).no_duplicates(),
{
    let after = with_text(list, text);
    assert forall|x: Seq<char>| #[trigger] after.contains(x) <==> list.contains(x) || x == text by {
        if list.contains(x) {
            let i = choose|i: int| 0 <= i < list.len() && list[i] == x;
            assert(after[i] == x);
        }
        if x == text && !list.contains(text) {
            assert(after[list.len() as int] == x);
        }
    }
}

pub(crate) proof fn lemma_with_texts_to(list: Seq<Seq<char>>, more: Seq<Seq<char>>, n: int)
    requires
        0 <= n <= more.len(),
    ensures
        forall|x: Seq<char>| #[trigger]
            with_texts_to(list, more, n).contains(x) <==> list.contains(x) || more.take(n).contains(
                x,
            ),
        list.no_duplicates() ==> with_texts_to(list, more, n).no_duplicates(),
    decreases n,
{
    if n > 0 {
        lemma_with_texts_to(list, more, n - 1);
        let before = with_texts_to(list, more, n - 1);
        lemma_with_text(before, more[n - 1]);
        lemma_take_one_more(more, n);
        assert forall|x: Seq<char>| #[trigger]
            with_texts_to(list, more, n).contains(x) <==> list.contains(x) || more.take(n).contains(
                x,
            ) by {
            assert(before.contains(x) <==> list.contains(x) || more.take(n - 1).contains(x));
        }
    } else {
        assert(more.take(0) =~= Seq::<Seq<char>>::empty());
    }
}

/// Adding what is missing makes a list hold the texts of both, none twice.
pub proof fn lemma_with_texts(list: Seq<Seq<char>>, more: Seq<Seq<char>>)
    ensures
        forall|x: Seq<char>| #[trigger]
            with_texts(list, more).contains(x) <==> list.contains(x) || more.contains(x),
        list.no_duplicates() ==> with_texts(list, more).no_duplicates(),
{
    lemma_with_texts_to(list, more, more.len() as int);
    assert(more.take(more.len() as int) =~= more);
}

// ---------------------------------------------------------------------------
// Words of the matrix
// ---------------------------------------------------------------------------

pub(crate) proof fn lemma_word_fixed(s: Seq<char>)
    requires
        s.len() > 0,
        is_ascii_chars(s),
        forall|i: int| 0 <= i < s.len() ==> !crate::text::space(#[trigger] s[i]),
        forall|i: int| 0 <= i < s.len() ==> !('A' <= #[trigger] s[i] <= 'Z'),
    ensures
        trimmed(s) == s,
        lowered(s) == s,
        in_small(trimmed(s)) == s,
{
    lemma_trimmed_fixed(s);
    assert(lowered(s) =~= s);
}

pub(crate) proof fn lemma_words()
    ensures
        direction_of("ab"@) == Some("ab"@),
        direction_of("ba"@) == Some("ba"@),
        direction_of("bidir"@) == Some("bidir"@),
        "ab"@ != "both"@,
        "ba"@ != "both"@,
        "bidir"@ != "both"@,
        in_small(trimmed("tcp"@)) == "tcp"@,
        in_small(trimmed("udp"@)) == "udp"@,
        in_small(trimmed("v4"@)) == "v4"@,
        in_small(trimmed("v6"@)) == "v6"@,
        trimmed("ping"@) == "ping"@,
        trimmed("iperf"@) == "iperf"@,
        "iperf"@ != "ping"@,
        "tcp"@ != "udp"@,
        "tcp"@ != "ping"@,
        "udp"@ != "ping"@,
{
    reveal_strlit("ab");
    reveal_strlit("ba");
    reveal_strlit("bidir");
    reveal_strlit("both");
    reveal_strlit("tcp");
    reveal_strlit("udp");
    reveal_strlit("ping");
    reveal_strlit("iperf");
    reveal_strlit("v4");
    reveal_strlit("v6");
    reveal_strlit("a->b");
    reveal_strlit("a>b");
    reveal_strlit("a_to_b");
    lemma_word_fixed("ab"@);
    lemma_word_fixed("ba"@);
    lemma_word_fixed("bidir"@);
    lemma_word_fixed("tcp"@);
    lemma_word_fixed("udp"@);
    lemma_word_fixed("ping"@);
    lemma_word_fixed("iperf"@);
    lemma_word_fixed("v4"@);
    lemma_word_fixed("v6"@);
    assert("ab"@[0] == 'a' && "ba"@[0] == 'b' && "bidir"@[0] == 'b' && "bidir"@[1] == 'i');
    assert("both"@[1] == 'o' && "both"@.len() == 4 && "ba"@.len() == 2 && "bidir"@.len() == 5);
    assert("a->b"@.len() == 4 && "a>b"@.len() == 3 && "a_to_b"@.len() == 6);
    assert("a->b"@[0] == 'a' && "a>b"@[0] == 'a' && "a_to_b"@[0] == 'a');
    assert("b->a"@ != "bidir"@) by {
        reveal_strlit("b->a");
        assert("b->a"@.len() == 4);
    }
    assert("b>a"@ != "bidir"@) by {
        reveal_strlit("b>a");
        assert("b>a"@.len() == 3);
    }
    assert("b_to_a"@ != "bidir"@) by {
        reveal_strlit("b_to_a");
        assert("b_to_a"@.len() == 6);
    }
    assert("tcp"@[0] == 't' && "udp"@[0] == 'u' && "ping"@.len() == 4 && "iperf"@.len() == 5);
}

/// Directions in the words of the matrix mean themselves.
pub(crate) proof fn lemma_directions_meant(dirs: Seq<Seq<char>>, n: int)
    requires
        0 <= n <= dirs.len(),
        forall|i: int|
            0 <= i < dirs.len() ==> seq!["ab"@, "ba"@, "bidir"@].contains(#[trigger] dirs[i]),
    ensures
        forall|x: Seq<char>| #[trigger]
            directions_meant_to(dirs, n).contains(x) <==> dirs.take(n).contains(x),
        directions_meant_to(dirs, n).no_duplicates(),
    decreases n,
{
    if n > 0 {
        lemma_words();
        lemma_directions_meant(dirs, n - 1);
        let before = directions_meant_to(dirs, n - 1);
        let dir = dirs[n - 1];
        assert(seq!["ab"@, "ba"@, "bidir"@].contains(dir));
        assert(dir == "ab"@ || dir == "ba"@ || dir == "bidir"@);
        assert(direction_of(dir) == Some(dir));
        lemma_with_text(before, dir);
        lemma_take_one_more(dirs, n);
        assert forall|x: Seq<char>| #[trigger]
            directions_meant_to(dirs, n).contains(x) <==> dirs.take(n).contains(x) by {
            assert(with_text(before, dir).contains(x) <==> before.contains(x) || x == dir);
        }
    } else {
        assert(dirs.take(0) =~= Seq::<Seq<char>>::empty());
    }
}

/// Texts that are `a` or `b` are all known.
pub(crate) proof fn lemma_known(list: Seq<Seq<char>>, a: Seq<char>, b: Seq<char>, n: int)
    requires
        0 <= n <= list.len(),
        in_small(trimmed(a)) == a,
        in_small(trimmed(b)) == b,
        forall|i: int| 0 <= i < list.len() ==> #[trigger] list[i] == a || list[i] == b,
    ensures
        known_to(list, a, b, n) == list.take(n),
    decreases n,
{
    if n > 0 {
        lemma_known(list, a, b, n - 1);
        assert(list[n - 1] == a || list[n - 1] == b);
        assert(list.take(n) =~= list.take(n - 1).push(list[n - 1]));
    } else {
        assert(list.take(0) =~= Seq::<Seq<char>>::empty());
    }
}

// ---------------------------------------------------------------------------
// Reading the tests of one row
// ---------------------------------------------------------------------------

/// A row without its UDP groups.
pub open spec fn bare(row: ImportRowView) -> ImportRowView {
    ImportRowView { pair: PairImportView { udp_groups: Seq::empty(), ..row.pair }, ..row }
}

/// Whether a row that was read has these ends.
pub open spec fn has_ends(row: ImportRowView, src: Seq<char>, dst: Seq<char>) -> bool {
    row.pair.src == src && row.pair.dst == dst
}

/// A row after the first `n` of its tests, without its UDP groups.
pub open spec fn row_fold(
    src: Seq<char>,
    dst: Seq<char>,
    tests: Seq<TestSpec>,
    default_tcp: TcpGroupOutView,
    n: int,
) -> ImportRowView
    decreases n,
{
    if n <= 0 {
        empty_row(src, dst)
    } else {
        row_with(
            row_fold(src, dst, tests, default_tcp, n - 1),
            tests[n - 1],
            false,
            default_tcp,
        )
    }
}

pub(crate) proof fn lemma_row_index(rows: Seq<ImportRowView>, src: Seq<char>, dst: Seq<char>, i: int, at: int)
    requires
        0 <= i <= at <= rows.len(),
        at < rows.len() ==> has_ends(rows[at], src, dst),
        forall|k: int| i <= k < at ==> !has_ends(#[trigger] rows[k], src, dst),
    ensures
        row_index(rows, src, dst, i) == at,
    decreases at - i,
{
    if i < at {
        assert(!has_ends(rows[i], src, dst));
        lemma_row_index(rows, src, dst, i + 1, at);
    }
}

pub(crate) proof fn lemma_state_with(
    st: ImportStateView,
    profiles: Seq<NicProfile>,
    test: TestSpec,
    src: Seq<char>,
    dst: Seq<char>,
    at: int,
    default_udp: UdpGroupOutView,
    default_tcp: TcpGroupOutView,
)
    requires
        0 <= at < st.rows.len(),
    ensures
        ({
            let after = state_with(
                st,
                profiles,
                test,
                src,
                dst,
                at,
                false,
                default_udp,
                default_tcp,
            );
            &&& after.rows.len() == st.rows.len()
            &&& forall|k: int|
                0 <= k < st.rows.len() && k != at ==> #[trigger] after.rows[k] == st.rows[k]
            &&& bare(after.rows[at]) == row_with(bare(st.rows[at]), test, false, default_tcp)
            &&& after.unresolved == st.unresolved
        }),
{
}

/// What reading one more test of the last row does.
pub(crate) proof fn lemma_step_same_row(
    st: ImportStateView,
    rd: Readings,
    profiles: Seq<NicProfile>,
    test: TestSpec,
    default_udp: UdpGroupOutView,
    default_tcp: TcpGroupOutView,
)
    requires
        st.rows.len() > 0,
        endpoint_spelled(rd, test.src@) == Some(test.src@),
        endpoint_spelled(rd, test.dst@) == Some(test.dst@),
        has_ends(st.rows.last(), test.src@, test.dst@),
        forall|k: int|
            0 <= k < st.rows.len() - 1 ==> !has_ends(#[trigger] st.rows[k], test.src@, test.dst@),
    ensures
        ({
            let after = import_step(st, rd, profiles, test, default_udp, default_tcp);
            let at = st.rows.len() - 1;
            &&& after.rows.len() == st.rows.len()
            &&& forall|k: int| 0 <= k < at ==> #[trigger] after.rows[k] == st.rows[k]
            &&& bare(after.rows[at]) == row_with(bare(st.rows[at]), test, false, default_tcp)
            &&& after.unresolved == st.unresolved
        }),
{
    let at = st.rows.len() - 1;
    lemma_row_index(st.rows, test.src@, test.dst@, 0, at);
    lemma_state_with(
        st,
        profiles,
        test,
        test.src@,
        test.dst@,
        at,
        default_udp,
        default_tcp,
    );
}

/// What reading the first test of a row does.
pub(crate) proof fn lemma_step_new_row(
    st: ImportStateView,
    rd: Readings,
    profiles: Seq<NicProfile>,
    test: TestSpec,
    default_udp: UdpGroupOutView,
    default_tcp: TcpGroupOutView,
)
    requires
        endpoint_spelled(rd, test.src@) == Some(test.src@),
        endpoint_spelled(rd, test.dst@) == Some(test.dst@),
        forall|k: int|
            0 <= k < st.rows.len() ==> !has_ends(#[trigger] st.rows[k], test.src@, test.dst@)
                && !has_ends(st.rows[k], test.dst@, test.src@),
    ensures
        ({
            let after = import_step(st, rd, profiles, test, default_udp, default_tcp);
            let at = st.rows.len() as int;
            &&& after.rows.len() == at + 1
            &&& forall|k: int| 0 <= k < at ==> #[trigger] after.rows[k] == st.rows[k]
            &&& bare(after.rows[at]) == row_with(
                empty_row(test.src@, test.dst@),
                test,
                false,
                default_tcp,
            )
            &&& after.unresolved == st.unresolved
        }),
{
    let at = st.rows.len() as int;
    lemma_row_index(st.rows, test.src@, test.dst@, 0, at);
    lemma_row_index(st.rows, test.dst@, test.src@, 0, at);
    let grown = ImportStateView {
        rows: st.rows.push(empty_row(test.src@, test.dst@)),
        ..st
    };
    lemma_state_with(
        grown,
        profiles,
        test,
        test.src@,
        test.dst@,
        at,
        default_udp,
        default_tcp,
    );
    let fresh = empty_row(test.src@, test.dst@);
    assert(bare(fresh) == fresh);
    assert(grown.rows[at] == fresh);
}

/// What reading the first `n` tests of a new row does. The tests stand from `from` on.
pub(crate) proof fn lemma_row_block(
    rd: Readings,
    cfg: Config,
    default_udp: UdpGroupOutView,
    default_tcp: TcpGroupOutView,
    src: Seq<char>,
    dst: Seq<char>,
    from: int,
    n: int,
)
    requires
        0 <= from,
        1 <= n,
        from + n <= cfg.tests@.len(),
        endpoint_spelled(rd, src) == Some(src),
        endpoint_spelled(rd, dst) == Some(dst),
        forall|k: int|
            from <= k < from + n ==> (#[trigger] cfg.tests@[k]).src@ == src && cfg.tests@[k].dst@
                == dst,
        ({
            let before = import_to(rd, cfg, default_udp, default_tcp, from);
            forall|k: int|
                0 <= k < before.rows.len() ==> !has_ends(#[trigger] before.rows[k], src, dst)
                    && !has_ends(before.rows[k], dst, src)
        }),
    ensures
        ({
            let before = import_to(rd, cfg, default_udp, default_tcp, from);
            let after = import_to(rd, cfg, default_udp, default_tcp, from + n);
            let at = before.rows.len() as int;
            let tests = cfg.tests@.subrange(from, cfg.tests@.len() as int);
            &&& after.rows.len() == at + 1
            &&& forall|k: int| 0 <= k < at ==> #[trigger] after.rows[k] == before.rows[k]
            &&& bare(after.rows[at]) == row_fold(src, dst, tests, default_tcp, n)
            &&& after.unresolved == before.unresolved
        }),
    decreases n,
{
    let before = import_to(rd, cfg, default_udp, default_tcp, from);
    let at = before.rows.len() as int;
    let tests = cfg.tests@.subrange(from, cfg.tests@.len() as int);
    let test = cfg.tests@[from + n - 1];
    assert(tests[n - 1] == test);
    assert(test.src@ == src && test.dst@ == dst);
    let profiles = cfg.link_profiles.by_nic@;
    if n == 1 {
        lemma_step_new_row(before, rd, profiles, test, default_udp, default_tcp);
        assert(row_fold(src, dst, tests, default_tcp, 0) == empty_row(src, dst));
    } else {
        lemma_row_block(rd, cfg, default_udp, default_tcp, src, dst, from, n - 1);
        let mid = import_to(rd, cfg, default_udp, default_tcp, from + n - 1);
        let folded = row_fold(src, dst, tests, default_tcp, n - 1);
        lemma_fold_ends(src, dst, tests, default_tcp, n - 1);
        assert(bare(mid.rows[at]).pair.src == src && bare(mid.rows[at]).pair.dst == dst);
        assert(mid.rows.last() == mid.rows[at]);
        assert forall|k: int| 0 <= k < mid.rows.len() - 1 implies !has_ends(
            #[trigger] mid.rows[k],
            src,
            dst,
        ) by {
            assert(mid.rows[k] == before.rows[k]);
        }
        lemma_step_same_row(mid, rd, profiles, test, default_udp, default_tcp);
    }
}

pub(crate) proof fn lemma_fold_ends(
    src: Seq<char>,
    dst: Seq<char>,
    tests: Seq<TestSpec>,
    default_tcp: TcpGroupOutView,
    n: int,
)
    ensures
        has_ends(row_fold(src, dst, tests, default_tcp, n), src, dst),
    decreases n,
{
    if n > 0 {
        lemma_fold_ends(src, dst, tests, default_tcp, n - 1);
    }
}

/// The transport that the matrix shows for a test.
pub open spec fn word_of(t: TestSpecView) -> Seq<char> {
    if t.kinds == seq!["ping"@] {
        "ping"@
    } else {
        t.transports[0]
    }
}

/// Whether a test is one that the matrix makes of a row.
pub open spec fn is_row_test(t: TestSpecView, rd: Readings, pair: PairSelection) -> bool {
    &&& t.src == pair.src@
    &&& t.dst == pair.dst@
    &&& forall|i: int|
        0 <= i < t.direction.len() ==> texts(pair.directions@).contains(#[trigger] t.direction[i])
    &&& t.ip == texts(pair.ip@)
    &&& t.rate_targets_bidir_mbps == pair_bidir_targets(rd, pair)
    &&& (t.kinds == seq!["iperf"@] && (t.transports == seq!["tcp"@] || t.transports == seq![
        "udp"@,
    ])) || (t.kinds == seq!["ping"@] && t.transports == Seq::<Seq<char>>::empty())
}

pub(crate) proof fn lemma_shown(test: TestSpec, rd: Readings, pair: PairSelection)
    requires
        is_row_test(test@, rd, pair),
    ensures
        shown_transports(test) == seq![word_of(test@)],
        test_transports(test).contains("tcp"@) == (word_of(test@) == "tcp"@),
        test_transports(test).contains("udp"@) == (word_of(test@) == "udp"@),
        word_of(test@) == "tcp"@ || word_of(test@) == "udp"@ || word_of(test@) == "ping"@,
{
    lemma_words();
    let t = test@;
    let list = texts(test.transports@);
    assert(list == t.transports);
    assert(list.len() == test.transports@.len());
    assert(texts(test.kinds@) == t.kinds);
    assert(t.kinds.len() == test.kinds@.len());
    assert(t.kinds[0] == test.kinds@[0]@);
    assert(seq!["iperf"@][0] == "iperf"@ && seq!["ping"@][0] == "ping"@);
    lemma_known(list, "tcp"@, "udp"@, list.len() as int);
    assert(list.take(list.len() as int) =~= list);
    assert(test_transports(test) == t.transports);
    assert(seq!["tcp"@][0] == "tcp"@ && seq!["udp"@][0] == "udp"@);
    if t.kinds == seq!["ping"@] {
        assert(trimmed(test.kinds@[0]@) == "ping"@);
        assert(holds_trimmed(test.kinds@, "ping"@));
        assert(shown_transports(test) =~= seq!["ping"@]);
    } else {
        assert(!holds_trimmed(test.kinds@, "ping"@)) by {
            if holds_trimmed(test.kinds@, "ping"@) {
                let k = choose|k: int|
                    0 <= k < test.kinds@.len() && trimmed((#[trigger] test.kinds@[k])@) == "ping"@;
                assert(k == 0);
            }
        }
        assert(shown_transports(test) =~= seq![word_of(t)]);
        assert(t.transports.contains(t.transports[0]));
    }
}

/// What one more test of a row adds to it.
pub(crate) proof fn lemma_row_with(
    row: ImportRowView,
    test: TestSpec,
    rd: Readings,
    pair: PairSelection,
    default_tcp: TcpGroupOutView,
)
    requires
        is_row_test(test@, rd, pair),
        plain_row(pair),
    ensures
        ({
            let after = row_with(row, test, false, default_tcp).pair;
            &&& forall|x: Seq<char>| #[trigger]
                after.directions.contains(x) <==> row.pair.directions.contains(x)
                    || test@.direction.contains(x)
            &&& row.pair.directions.no_duplicates() ==> after.directions.no_duplicates()
            &&& forall|x: Seq<char>| #[trigger]
                after.transports.contains(x) <==> row.pair.transports.contains(x) || x == word_of(
                    test@,
                )
            &&& row.pair.transports.no_duplicates() ==> after.transports.no_duplicates()
            &&& forall|x: Seq<char>| #[trigger]
                after.ip.contains(x) <==> row.pair.ip.contains(x) || texts(pair.ip@).contains(x)
            &&& row.pair.ip.no_duplicates() ==> after.ip.no_duplicates()
        }),
{
    lemma_words();
    let t = test@;
    let dirs = t.direction;
    assert(dirs == test.direction@);
    let words = seq!["ab"@, "ba"@, "bidir"@];
    assert forall|i: int| 0 <= i < dirs.len() implies words.contains(#[trigger] dirs[i]) by {
        assert(texts(pair.directions@).contains(dirs[i]));
        let k = choose|k: int|
            0 <= k < texts(pair.directions@).len() && texts(pair.directions@)[k] == dirs[i];
        assert(words.contains(texts(pair.directions@)[k]));
    }
    lemma_directions_meant(dirs, dirs.len() as int);
    assert(dirs.take(dirs.len() as int) =~= dirs);
    let seen = directions_seen(directions_meant(dirs), false);
    assert(seen =~= directions_meant(dirs));
    lemma_with_texts(row.pair.directions, seen);
    lemma_shown(test, rd, pair);
    lemma_with_texts(row.pair.transports, seq![word_of(t)]);
    assert forall|x: Seq<char>| seq![word_of(t)].contains(x) <==> x == word_of(t) by {
        assert(seq![word_of(t)][0] == word_of(t));
    }
    let ip = texts(pair.ip@);
    assert(texts(test.ip@) == ip);
    assert(ip.len() == test.ip@.len());
    assert forall|i: int| 0 <= i < ip.len() implies #[trigger] ip[i] == "v4"@ || ip[i] == "v6"@ by {
        assert(seq!["v4"@, "v6"@].contains(ip[i]));
    }
    lemma_known(ip, "v4"@, "v6"@, ip.len() as int);
    assert(ip.take(ip.len() as int) =~= ip);
    lemma_with_texts(row.pair.ip, ip);
}

/// What the first `n` tests of a row add up to.
pub(crate) proof fn lemma_fold(
    rd: Readings,
    pair: PairSelection,
    tests: Seq<TestSpec>,
    default_tcp: TcpGroupOutView,
    n: int,
)
    requires
        0 <= n <= tests.len(),
        plain_row(pair),
        forall|j: int| 0 <= j < n ==> is_row_test((#[trigger] tests[j])@, rd, pair),
    ensures
        ({
            let row = row_fold(pair.src@, pair.dst@, tests, default_tcp, n).pair;
            &&& forall|x: Seq<char>| #[trigger]
                row.directions.contains(x) <==> exists|j: int|
                    0 <= j < n && (#[trigger] tests[j])@.direction.contains(x)
            &&& row.directions.no_duplicates()
            &&& forall|x: Seq<char>| #[trigger]
                row.transports.contains(x) <==> exists|j: int|
                    0 <= j < n && word_of((#[trigger] tests[j])@) == x
            &&& row.transports.no_duplicates()
            &&& forall|x: Seq<char>| #[trigger]
                row.ip.contains(x) <==> n > 0 && texts(pair.ip@).contains(x)
            &&& row.ip.no_duplicates()
            &&& row.rx_target_bidir_ab == if n > 0 && texts(pair.directions@).contains("bidir"@) {
                mbps_in(rd, pair.rx_target_bidir_ab@)
            } else {
                None
            }
            &&& row.rx_target_bidir_ba == if n > 0 && texts(pair.directions@).contains("bidir"@) {
                mbps_in(rd, pair.rx_target_bidir_ba@)
            } else {
                None
            }
        }),
    decreases n,
{
    let row = row_fold(pair.src@, pair.dst@, tests, default_tcp, n).pair;
    if n > 0 {
        lemma_fold(rd, pair, tests, default_tcp, n - 1);
        let before = row_fold(pair.src@, pair.dst@, tests, default_tcp, n - 1);
        let test = tests[n - 1];
        assert(is_row_test(test@, rd, pair));
        lemma_row_with(before, test, rd, pair, default_tcp);
        assert forall|x: Seq<char>| #[trigger] row.directions.contains(x) <==> exists|j: int|
            0 <= j < n && (#[trigger] tests[j])@.direction.contains(x) by {
            if before.pair.directions.contains(x) {
                let j = choose|j: int|
                    0 <= j < n - 1 && (#[trigger] tests[j])@.direction.contains(x);
                assert(0 <= j < n && tests[j]@.direction.contains(x));
            }
            if test@.direction.contains(x) {
                assert(0 <= n - 1 < n && tests[n - 1]@.direction.contains(x));
            }
            if exists|j: int| 0 <= j < n && (#[trigger] tests[j])@.direction.contains(x) {
                let j = choose|j: int| 0 <= j < n && (#[trigger] tests[j])@.direction.contains(x);
                if j < n - 1 {
                    assert(0 <= j < n - 1 && tests[j]@.direction.contains(x));
                }
            }
        }
        assert forall|x: Seq<char>| #[trigger] row.transports.contains(x) <==> exists|j: int|
            0 <= j < n && word_of((#[trigger] tests[j])@) == x by {
            if before.pair.transports.contains(x) {
                let j = choose|j: int| 0 <= j < n - 1 && word_of((#[trigger] tests[j])@) == x;
                assert(0 <= j < n && word_of(tests[j]@) == x);
            }
            if word_of(test@) == x {
                assert(0 <= n - 1 < n && word_of(tests[n - 1]@) == x);
            }
            if exists|j: int| 0 <= j < n && word_of((#[trigger] tests[j])@) == x {
                let j = choose|j: int| 0 <= j < n && word_of((#[trigger] tests[j])@) == x;
                if j < n - 1 {
                    assert(0 <= j < n - 1 && word_of(tests[j]@) == x);
                }
            }
        }
        assert(test@.rate_targets_bidir_mbps == test.rate_targets_bidir_mbps);
    }
}

// ---------------------------------------------------------------------------
// The tests of one row
// ---------------------------------------------------------------------------

/// Whether every TCP group has a number of streams to run with.
pub open spec fn steps_given(sweeps: SweepsView) -> bool {
    forall|group: usize| (#[trigger] group_at(sweeps.tcp_groups, group)).stream_steps.len() > 0
}

pub(crate) proof fn lemma_chosen_groups(groups: Seq<usize>)
    ensures
        chosen_groups(groups).len() > 0,
{
    if groups.len() > 0 {
        crate::sweep::lemma_deduped(groups);
        assert(groups.contains(groups[0]));
        assert(chosen_groups(groups).contains(groups[0]));
    }
}

pub(crate) proof fn lemma_tcp_group_tests(
    rd: Readings,
    idx: usize,
    pair: PairSelection,
    sweeps: SweepsView,
    group: usize,
    n: int,
)
    requires
        0 <= n,
    ensures
        tcp_group_tests_to(rd, idx, pair, sweeps, group, n).len() == n,
        forall|j: int|
            0 <= j < n ==> #[trigger] tcp_group_tests_to(rd, idx, pair, sweeps, group, n)[j]
                == tcp_test(
                rd,
                idx,
                pair,
                sweeps,
                group,
                group_at(sweeps.tcp_groups, group).stream_steps[j],
            ),
    decreases n,
{
    if n > 0 {
        lemma_tcp_group_tests(rd, idx, pair, sweeps, group, n - 1);
    }
}

pub(crate) proof fn lemma_tcp_tests(
    rd: Readings,
    idx: usize,
    pair: PairSelection,
    sweeps: SweepsView,
    n: int,
)
    requires
        0 <= n <= chosen_groups(pair.tcp_groups@).len(),
        steps_given(sweeps),
        plain_row(pair),
    ensures
        n > 0 ==> tcp_tests_to(rd, idx, pair, sweeps, n).len() > 0,
        forall|j: int|
            0 <= j < tcp_tests_to(rd, idx, pair, sweeps, n).len() ==> {
                let t = #[trigger] tcp_tests_to(rd, idx, pair, sweeps, n)[j];
                is_row_test(t, rd, pair) && word_of(t) == "tcp"@ && t.direction == texts(
                    pair.directions@,
                )
            },
    decreases n,
{
    if n > 0 {
        lemma_tcp_tests(rd, idx, pair, sweeps, n - 1);
        lemma_words();
        let before = tcp_tests_to(rd, idx, pair, sweeps, n - 1);
        let group = chosen_groups(pair.tcp_groups@)[n - 1];
        let steps = group_at(sweeps.tcp_groups, group).stream_steps;
        assert(steps.len() > 0);
        lemma_tcp_group_tests(rd, idx, pair, sweeps, group, steps.len() as int);
        let more = tcp_group_tests(rd, idx, pair, sweeps, group);
        let all = tcp_tests_to(rd, idx, pair, sweeps, n);
        assert(all == before + more);
        assert(seq!["iperf"@] != seq!["ping"@]) by {
            assert(seq!["iperf"@][0] == "iperf"@ && seq!["ping"@][0] == "ping"@);
        }
        assert(seq!["tcp"@][0] == "tcp"@);
        assert forall|j: int| 0 <= j < all.len() implies {
            let t = #[trigger] all[j];
            is_row_test(t, rd, pair) && word_of(t) == "tcp"@ && t.direction == texts(
                pair.directions@,
            )
        } by {
            if j < before.len() {
                assert(all[j] == before[j]);
            } else {
                let k = j - before.len();
                assert(all[j] == more[k]);
                assert(more[k] == tcp_test(rd, idx, pair, sweeps, group, steps[k]));
            }
        }
    }
}

pub(crate) proof fn lemma_directions_where(
    dirs: Seq<Seq<char>>,
    src_pinned: bool,
    dst_pinned: bool,
    pinned: bool,
    n: int,
)
    requires
        0 <= n <= dirs.len(),
    ensures
        forall|x: Seq<char>| #[trigger]
            directions_to(dirs, src_pinned, dst_pinned, pinned, n).contains(x) <==> dirs.take(
                n,
            ).contains(x) && direction_pinned(x, src_pinned, dst_pinned) == pinned,
    decreases n,
{
    if n > 0 {
        lemma_directions_where(dirs, src_pinned, dst_pinned, pinned, n - 1);
        lemma_take_one_more(dirs, n);
        let before = directions_to(dirs, src_pinned, dst_pinned, pinned, n - 1);
        let after = directions_to(dirs, src_pinned, dst_pinned, pinned, n);
        assert forall|x: Seq<char>| #[trigger] after.contains(x) <==> dirs.take(n).contains(x)
            && direction_pinned(x, src_pinned, dst_pinned) == pinned by {
            assert(before.contains(x) <==> dirs.take(n - 1).contains(x) && direction_pinned(
                x,
                src_pinned,
                dst_pinned,
            ) == pinned);
            if direction_pinned(dirs[n - 1], src_pinned, dst_pinned) == pinned {
                assert(after == before.push(dirs[n - 1]));
                if before.contains(x) {
                    let i = choose|i: int| 0 <= i < before.len() && before[i] == x;
                    assert(after[i] == x);
                }
                assert(after[before.len() as int] == dirs[n - 1]);
            }
        }
    } else {
        assert(dirs.take(0) =~= Seq::<Seq<char>>::empty());
    }
}

pub(crate) proof fn lemma_udp_group_tests(
    rd: Readings,
    idx: usize,
    pair: PairSelection,
    req: RunRequest,
    sweeps: SweepsView,
    group: usize,
)
    requires
        plain_row(pair),
    ensures
        ({
            let all = udp_group_tests(rd, idx, pair, req, sweeps, group);
            &&& forall|j: int|
                0 <= j < all.len() ==> is_row_test(#[trigger] all[j], rd, pair) && word_of(all[j])
                    == "udp"@
            &&& forall|x: Seq<char>| #[trigger]
                texts(pair.directions@).contains(x) ==> exists|j: int|
                    0 <= j < all.len() && (#[trigger] all[j]).direction.contains(x)
        }),
{
    lemma_words();
    let all = udp_group_tests(rd, idx, pair, req, sweeps, group);
    let src_pinned = sweeps.pinned_senders.contains(pair.src@);
    let dst_pinned = sweeps.pinned_senders.contains(pair.dst@);
    let dirs = texts(pair.directions@);
    let pinned = directions_where(dirs, src_pinned, dst_pinned, true);
    let swept = directions_where(dirs, src_pinned, dst_pinned, false);
    lemma_directions_where(dirs, src_pinned, dst_pinned, true, dirs.len() as int);
    lemma_directions_where(dirs, src_pinned, dst_pinned, false, dirs.len() as int);
    assert(dirs.take(dirs.len() as int) =~= dirs);
    assert(seq!["iperf"@] != seq!["ping"@]) by {
        assert(seq!["iperf"@][0] == "iperf"@ && seq!["ping"@][0] == "ping"@);
    }
    assert(seq!["udp"@][0] == "udp"@);
    assert forall|i: int| 0 <= i < pinned.len() implies dirs.contains(#[trigger] pinned[i]) by {
        assert(pinned.contains(pinned[i]));
    }
    assert forall|i: int| 0 <= i < swept.len() implies dirs.contains(#[trigger] swept[i]) by {
        assert(swept.contains(swept[i]));
    }
    assert forall|j: int| 0 <= j < all.len() implies is_row_test(#[trigger] all[j], rd, pair)
        && word_of(all[j]) == "udp"@ by {
        assert(all[j].direction == pinned || all[j].direction == swept);
    }
    assert forall|x: Seq<char>| #[trigger] dirs.contains(x) implies exists|j: int|
        0 <= j < all.len() && (#[trigger] all[j]).direction.contains(x) by {
        if direction_pinned(x, src_pinned, dst_pinned) {
            assert(pinned.contains(x));
            assert(all[0].direction == pinned);
        } else {
            assert(swept.contains(x));
            let last = all.len() - 1;
            assert(all[last].direction == swept);
        }
    }
}

pub(crate) proof fn lemma_udp_tests(
    rd: Readings,
    idx: usize,
    pair: PairSelection,
    req: RunRequest,
    sweeps: SweepsView,
    n: int,
)
    requires
        0 <= n <= chosen_groups(pair.udp_groups@).len(),
        plain_row(pair),
    ensures
        ({
            let all = udp_tests_to(rd, idx, pair, req, sweeps, n);
            &&& forall|j: int|
                0 <= j < all.len() ==> is_row_test(#[trigger] all[j], rd, pair) && word_of(all[j])
                    == "udp"@
            &&& n > 0 ==> forall|x: Seq<char>| #[trigger]
                texts(pair.directions@).contains(x) ==> exists|j: int|
                    0 <= j < all.len() && (#[trigger] all[j]).direction.contains(x)
        }),
    decreases n,
{
    if n > 0 {
        lemma_udp_tests(rd, idx, pair, req, sweeps, n - 1);
        let before = udp_tests_to(rd, idx, pair, req, sweeps, n - 1);
        let group = chosen_groups(pair.udp_groups@)[n - 1];
        lemma_udp_group_tests(rd, idx, pair, req, sweeps, group);
        let more = udp_group_tests(rd, idx, pair, req, sweeps, group);
        let all = udp_tests_to(rd, idx, pair, req, sweeps, n);
        assert(all == before + more);
        assert forall|j: int| 0 <= j < all.len() implies is_row_test(#[trigger] all[j], rd, pair)
            && word_of(all[j]) == "udp"@ by {
            if j < before.len() {
                assert(all[j] == before[j]);
            } else {
                assert(all[j] == more[j - before.len()]);
            }
        }
        assert forall|x: Seq<char>| #[trigger] texts(pair.directions@).contains(x) implies exists|
            j: int,
        |
            0 <= j < all.len() && (#[trigger] all[j]).direction.contains(x) by {
            let k = choose|k: int|
                0 <= k < more.len() && (#[trigger] more[k]).direction.contains(x);
            assert(all[before.len() + k] == more[k]);
        }
    }
}

/// The tests of a row ask for exactly what the row asks for.
pub(crate) proof fn lemma_pair_tests(
    rd: Readings,
    idx: usize,
    pair: PairSelection,
    req: RunRequest,
    sweeps: SweepsView,
)
    requires
        plain_row(pair),
        steps_given(sweeps),
    ensures
        ({
            let all = pair_tests(rd, idx, pair, req, sweeps);
            &&& all.len() > 0
            &&& forall|j: int|
                0 <= j < all.len() ==> is_row_test(#[trigger] all[j], rd, pair) && texts(
                    pair.transports@,
                ).contains(word_of(all[j]))
            &&& forall|x: Seq<char>| #[trigger]
                texts(pair.transports@).contains(x) ==> exists|j: int|
                    0 <= j < all.len() && word_of(#[trigger] all[j]) == x
            &&& forall|x: Seq<char>| #[trigger]
                texts(pair.directions@).contains(x) ==> exists|j: int|
                    0 <= j < all.len() && (#[trigger] all[j]).direction.contains(x)
        }),
{
    lemma_words();
    let transports = texts(pair.transports@);
    let dirs = texts(pair.directions@);
    let tcp = if transports.contains("tcp"@) {
        tcp_tests_to(rd, idx, pair, sweeps, chosen_groups(pair.tcp_groups@).len() as int)
    } else {
        Seq::empty()
    };
    let udp = if transports.contains("udp"@) {
        udp_tests_to(rd, idx, pair, req, sweeps, chosen_groups(pair.udp_groups@).len() as int)
    } else {
        Seq::empty()
    };
    let ping = if transports.contains("ping"@) {
        seq![ping_test(rd, idx, pair, req, sweeps)]
    } else {
        Seq::empty()
    };
    let all = pair_tests(rd, idx, pair, req, sweeps);
    assert(all == tcp + udp + ping);
    lemma_chosen_groups(pair.tcp_groups@);
    lemma_chosen_groups(pair.udp_groups@);
    lemma_tcp_tests(rd, idx, pair, sweeps, chosen_groups(pair.tcp_groups@).len() as int);
    lemma_udp_tests(rd, idx, pair, req, sweeps, chosen_groups(pair.udp_groups@).len() as int);
    assert(dirs.len() > 0 && dirs.contains(dirs[0]));
    if transports.contains("udp"@) {
        let k = choose|k: int| 0 <= k < udp.len() && (#[trigger] udp[k]).direction.contains(dirs[0]);
        assert(udp.len() > 0);
    }
    assert forall|j: int| 0 <= j < all.len() implies is_row_test(#[trigger] all[j], rd, pair)
        && transports.contains(word_of(all[j])) by {
        if j < tcp.len() {
            assert(all[j] == tcp[j]);
        } else if j < tcp.len() + udp.len() {
            assert(all[j] == udp[j - tcp.len()]);
        } else {
            assert(all[j] == ping[j - tcp.len() - udp.len()]);
        }
    }
    assert forall|x: Seq<char>| #[trigger] transports.contains(x) implies exists|j: int|
        0 <= j < all.len() && word_of(#[trigger] all[j]) == x by {
        let k = choose|k: int| 0 <= k < transports.len() && transports[k] == x;
        assert(seq!["tcp"@, "udp"@, "ping"@].contains(transports[k]));
        assert(x == "tcp"@ || x == "udp"@ || x == "ping"@);
        if x == "tcp"@ {
            assert(all[0] == tcp[0]);
        } else if x == "udp"@ {
            assert(all[tcp.len() as int] == udp[0]);
        } else {
            assert(all[(tcp.len() + udp.len()) as int] == ping[0]);
            assert(word_of(ping[0]) == "ping"@);
        }
    }
    assert(transports.len() > 0 && transports.contains(transports[0]));
    assert forall|x: Seq<char>| #[trigger] dirs.contains(x) implies exists|j: int|
        0 <= j < all.len() && (#[trigger] all[j]).direction.contains(x) by {
        let first = transports[0];
        assert(seq!["tcp"@, "udp"@, "ping"@].contains(first));
        if first == "tcp"@ {
            assert(all[0] == tcp[0]);
        } else if first == "udp"@ {
            let k = choose|k: int| 0 <= k < udp.len() && (#[trigger] udp[k]).direction.contains(x);
            assert(all[tcp.len() + k] == udp[k]);
        } else {
            assert(all[(tcp.len() + udp.len()) as int] == ping[0]);
            assert(ping[0].direction == dirs);
        }
    }
}

// ---------------------------------------------------------------------------
// All rows
// ---------------------------------------------------------------------------

/// How many tests the first `n` rows make.
pub open spec fn tests_before(rd: Readings, req: RunRequest, sweeps: SweepsView, n: int) -> int {
    matrix_tests_to(rd, req, sweeps, n).len() as int
}

/// The tests of row `n`, with the Wi-Fi thresholds filled in.
pub open spec fn row_tests(rd: Readings, req: RunRequest, sweeps: SweepsView, n: int) -> Seq<
    TestSpecView,
> {
    all_with_wifi_targets(
        pair_tests(rd, n as usize, req.pairs@[n], req, sweeps),
        rd,
        req,
        req.pairs@[n].src@,
        req.pairs@[n].dst@,
    )
}

pub(crate) proof fn lemma_matrix_prefix(rd: Readings, req: RunRequest, sweeps: SweepsView, n: int, m: int)
    requires
        0 <= n <= m,
    ensures
        tests_before(rd, req, sweeps, n) <= tests_before(rd, req, sweeps, m),
        forall|k: int|
            0 <= k < tests_before(rd, req, sweeps, n) ==> #[trigger] matrix_tests_to(
                rd,
                req,
                sweeps,
                m,
            )[k] == matrix_tests_to(rd, req, sweeps, n)[k],
    decreases m - n,
{
    if n < m {
        lemma_matrix_prefix(rd, req, sweeps, n, m - 1);
        let before = matrix_tests_to(rd, req, sweeps, m - 1);
        let all = matrix_tests_to(rd, req, sweeps, m);
        assert(all == before + row_tests(rd, req, sweeps, m - 1));
        assert forall|k: int| 0 <= k < tests_before(rd, req, sweeps, n) implies #[trigger] all[k]
            == matrix_tests_to(rd, req, sweeps, n)[k] by {
            assert(all[k] == before[k]);
        }
    }
}

/// Whether a configuration holds the tests of a matrix.
pub open spec fn holds_matrix(
    cfg: Config,
    rd: Readings,
    req: RunRequest,
    sweeps: SweepsView,
) -> bool {
    let all = matrix_tests_to(rd, req, sweeps, req.pairs@.len() as int);
    cfg.tests@.len() == all.len() && forall|k: int|
        0 <= k < all.len() ==> (#[trigger] cfg.tests@[k])@ == all[k]
}

/// Whether the rows of a matrix can be told apart and ask for what the matrix knows.
pub open spec fn sound_matrix(rd: Readings, req: RunRequest, sweeps: SweepsView) -> bool {
    &&& rows_differ(req.pairs@)
    &&& all_ends_spelled(rd, req.pairs@)
    &&& forall|i: int| 0 <= i < req.pairs@.len() ==> plain_row(#[trigger] req.pairs@[i])
    &&& steps_given(sweeps)
}

/// The tests of row `n` in a configuration that holds the matrix.
pub(crate) proof fn lemma_tests_of_row(
    cfg: Config,
    rd: Readings,
    req: RunRequest,
    sweeps: SweepsView,
    n: int,
)
    requires
        0 <= n < req.pairs@.len(),
        holds_matrix(cfg, rd, req, sweeps),
        sound_matrix(rd, req, sweeps),
    ensures
        ({
            let from = tests_before(rd, req, sweeps, n);
            let to = tests_before(rd, req, sweeps, n + 1);
            &&& 0 <= from < to <= cfg.tests@.len()
            &&& row_tests(rd, req, sweeps, n).len() == to - from
            &&& forall|j: int|
                0 <= j < to - from ==> (#[trigger] cfg.tests@[from + j])@ == row_tests(
                    rd,
                    req,
                    sweeps,
                    n,
                )[j]
            &&& forall|j: int|
                0 <= j < to - from ==> is_row_test(
                    #[trigger] row_tests(rd, req, sweeps, n)[j],
                    rd,
                    req.pairs@[n],
                )
        }),
{
    let pair = req.pairs@[n];
    let total = req.pairs@.len() as int;
    lemma_matrix_prefix(rd, req, sweeps, n + 1, total);
    lemma_pair_tests(rd, n as usize, pair, req, sweeps);
    let from = tests_before(rd, req, sweeps, n);
    let to = tests_before(rd, req, sweeps, n + 1);
    let own = row_tests(rd, req, sweeps, n);
    let plain = pair_tests(rd, n as usize, pair, req, sweeps);
    assert(matrix_tests_to(rd, req, sweeps, n + 1) == matrix_tests_to(rd, req, sweeps, n) + own);
    assert forall|j: int| 0 <= j < to - from implies (#[trigger] cfg.tests@[from + j])@ == own[j] by {
        assert(matrix_tests_to(rd, req, sweeps, n + 1)[from + j] == own[j]);
    }
    assert forall|j: int| 0 <= j < to - from implies is_row_test(#[trigger] own[j], rd, pair) by {
        assert(is_row_test(plain[j], rd, pair));
    }
}

/// What reading the tests of the first `n` rows gives.
#[verifier::spinoff_prover]
#[verifier::rlimit(30)]
pub(crate) proof fn lemma_rows(
    cfg: Config,
    rd: Readings,
    req: RunRequest,
    sweeps: SweepsView,
    default_udp: UdpGroupOutView,
    default_tcp: TcpGroupOutView,
    n: int,
)
    requires
        0 <= n <= req.pairs@.len(),
        holds_matrix(cfg, rd, req, sweeps),
        sound_matrix(rd, req, sweeps),
    ensures
        ({
            let st = import_to(
                rd,
                cfg,
                default_udp,
                default_tcp,
                tests_before(rd, req, sweeps, n),
            );
            &&& st.rows.len() == n
            &&& st.unresolved.len() == 0
            &&& forall|i: int|
                0 <= i < n ==> bare(#[trigger] st.rows[i]) == row_fold(
                    req.pairs@[i].src@,
                    req.pairs@[i].dst@,
                    cfg.tests@.subrange(
                        tests_before(rd, req, sweeps, i),
                        cfg.tests@.len() as int,
                    ),
                    default_tcp,
                    row_tests(rd, req, sweeps, i).len() as int,
                )
        }),
    decreases n,
{
    if n > 0 {
        lemma_rows(cfg, rd, req, sweeps, default_udp, default_tcp, n - 1);
        lemma_tests_of_row(cfg, rd, req, sweeps, n - 1);
        let pair = req.pairs@[n - 1];
        let from = tests_before(rd, req, sweeps, n - 1);
        let count = row_tests(rd, req, sweeps, n - 1).len() as int;
        let before = import_to(rd, cfg, default_udp, default_tcp, from);
        assert(ends_spelled(rd, pair));
        assert forall|k: int| from <= k < from + count implies (#[trigger] cfg.tests@[k]).src@
            == pair.src@ && cfg.tests@[k].dst@ == pair.dst@ by {
            let j = k - from;
            assert(cfg.tests@[from + j]@ == row_tests(rd, req, sweeps, n - 1)[j]);
            assert(is_row_test(row_tests(rd, req, sweeps, n - 1)[j], rd, pair));
        }
        assert forall|k: int| 0 <= k < before.rows.len() implies !has_ends(
            #[trigger] before.rows[k],
            pair.src@,
            pair.dst@,
        ) && !has_ends(before.rows[k], pair.dst@, pair.src@) by {
            assert(!same_ends(req.pairs@[k], pair));
            lemma_fold_ends(
                req.pairs@[k].src@,
                req.pairs@[k].dst@,
                cfg.tests@.subrange(tests_before(rd, req, sweeps, k), cfg.tests@.len() as int),
                default_tcp,
                row_tests(rd, req, sweeps, k).len() as int,
            );
            assert(bare(before.rows[k]).pair.src == before.rows[k].pair.src);
        }
        lemma_row_block(
            rd,
            cfg,
            default_udp,
            default_tcp,
            pair.src@,
            pair.dst@,
            from,
            count,
        );
        let st = import_to(rd, cfg, default_udp, default_tcp, from + count);
        assert(tests_before(rd, req, sweeps, n) == from + count);
        assert forall|i: int| 0 <= i < n implies bare(#[trigger] st.rows[i]) == row_fold(
            req.pairs@[i].src@,
            req.pairs@[i].dst@,
            cfg.tests@.subrange(tests_before(rd, req, sweeps, i), cfg.tests@.len() as int),
            default_tcp,
            row_tests(rd, req, sweeps, i).len() as int,
        ) by {
            if i < n - 1 {
                assert(st.rows[i] == before.rows[i]);
            }
        }
    }
}

/// A row whose tests have been read is the row that made them.
pub(crate) proof fn lemma_fold_restores(
    cfg: Config,
    rd: Readings,
    req: RunRequest,
    sweeps: SweepsView,
    default_tcp: TcpGroupOutView,
    n: int,
)
    requires
        0 <= n < req.pairs@.len(),
        holds_matrix(cfg, rd, req, sweeps),
        sound_matrix(rd, req, sweeps),
    ensures
        restores(
            row_fold(
                req.pairs@[n].src@,
                req.pairs@[n].dst@,
                cfg.tests@.subrange(tests_before(rd, req, sweeps, n), cfg.tests@.len() as int),
                default_tcp,
                row_tests(rd, req, sweeps, n).len() as int,
            ).pair,
            rd,
            req.pairs@[n],
        ),
{
    let pair = req.pairs@[n];
    lemma_tests_of_row(cfg, rd, req, sweeps, n);
    lemma_pair_tests(rd, n as usize, pair, req, sweeps);
    let from = tests_before(rd, req, sweeps, n);
    let own = row_tests(rd, req, sweeps, n);
    let plain = pair_tests(rd, n as usize, pair, req, sweeps);
    let count = own.len() as int;
    let tests = cfg.tests@.subrange(from, cfg.tests@.len() as int);
    assert forall|j: int| 0 <= j < count implies is_row_test((#[trigger] tests[j])@, rd, pair)
        && tests[j]@ == own[j] by {
        assert(tests[j] == cfg.tests@[from + j]);
        assert(is_row_test(own[j], rd, pair));
    }
    lemma_fold(rd, pair, tests, default_tcp, count);
    lemma_fold_ends(pair.src@, pair.dst@, tests, default_tcp, count);
    let row = row_fold(pair.src@, pair.dst@, tests, default_tcp, count).pair;
    assert forall|x: Seq<char>| #[trigger] row.directions.contains(x) <==> texts(
        pair.directions@,
    ).contains(x) by {
        if row.directions.contains(x) {
            let j = choose|j: int| 0 <= j < count && (#[trigger] tests[j])@.direction.contains(x);
            let k = choose|k: int|
                0 <= k < tests[j]@.direction.len() && tests[j]@.direction[k] == x;
            assert(texts(pair.directions@).contains(tests[j]@.direction[k]));
        }
        if texts(pair.directions@).contains(x) {
            let j = choose|j: int|
                0 <= j < plain.len() && (#[trigger] plain[j]).direction.contains(x);
            assert(own[j].direction == plain[j].direction);
            assert(tests[j]@ == own[j]);
        }
    }
    assert forall|x: Seq<char>| #[trigger] row.transports.contains(x) <==> texts(
        pair.transports@,
    ).contains(x) by {
        if row.transports.contains(x) {
            let j = choose|j: int| 0 <= j < count && word_of((#[trigger] tests[j])@) == x;
            assert(word_of(own[j]) == word_of(plain[j]));
            assert(texts(pair.transports@).contains(word_of(plain[j])));
        }
        if texts(pair.transports@).contains(x) {
            let j = choose|j: int| 0 <= j < plain.len() && word_of(#[trigger] plain[j]) == x;
            assert(word_of(own[j]) == word_of(plain[j]));
            assert(tests[j]@ == own[j]);
        }
    }
}

pub(crate) proof fn lemma_finish(rows: Seq<ImportRowView>, default_tcp: TcpGroupOutView, n: int)
    requires
        0 <= n <= rows.len(),
    ensures
        finish_to(rows, default_tcp, n).1.len() == n,
        forall|i: int|
            0 <= i < n ==> (#[trigger] finish_to(rows, default_tcp, n).1[i]) == finished_row(
                rows[i],
                row_groups_to(
                    finish_to(rows, default_tcp, i).0,
                    rows[i].tcp,
                    default_tcp,
                    rows[i].tcp.len() as int,
                ).1,
            ),
    decreases n,
{
    if n > 0 {
        lemma_finish(rows, default_tcp, n - 1);
    }
}

pub(crate) proof fn lemma_steps_given(state: UiState, rd: Readings, req: RunRequest)
    ensures
        steps_given(sweeps_of(req, base_config(state, rd, req))),
{
    let sweeps = sweeps_of(req, base_config(state, rd, req));
    assert forall|group: usize| (#[trigger] group_at(sweeps.tcp_groups, group)).stream_steps.len()
        > 0 by {
        lemma_tcp_groups_have_steps(
            req,
            base_config(state, rd, req).iperf.tcp_windows,
            req.tcp_groups@.len() as int,
        );
    }
}

pub(crate) proof fn lemma_tcp_groups_have_steps(req: RunRequest, windows: Seq<Seq<char>>, n: int)
    requires
        0 <= n <= req.tcp_groups@.len(),
    ensures
        tcp_groups_to(req, windows, n).len() == n + 1,
        forall|i: int|
            0 <= i <= n ==> (#[trigger] tcp_groups_to(req, windows, n)[i]).stream_steps.len() > 0,
    decreases n,
{
    if n > 0 {
        lemma_tcp_groups_have_steps(req, windows, n - 1);
    }
}

pub(crate) proof fn lemma_rows_are_plain(state: UiState, rd: Readings, req: RunRequest, i: int, k: int)
    requires
        pairs_told(state, rd, req, i) is Ok,
        0 <= i <= k < req.pairs@.len(),
    ensures
        plain_row(req.pairs@[k]),
    decreases k - i,
{
    if i < k {
        lemma_rows_are_plain(state, rd, req, i + 1, k);
    }
}

/// Importing what a checked matrix compiles to gives its rows back: one for each, in the same order,
/// with the same ends, directions, transports, address families and thresholds. This is so where no
/// two rows have the same ends and the ends are in their one spelling.
pub proof fn lemma_import_restores_rows(
    state: UiState,
    rd: Readings,
    req: RunRequest,
    cfg: Config,
    default_udp: UdpGroupOutView,
    default_tcp: TcpGroupOutView,
)
    requires
        request_told(state, rd, req) is Ok,
        req.ui_plan is None,
        rows_differ(req.pairs@),
        all_ends_spelled(rd, req.pairs@),
        cfg@ == request_config(state, rd, req),
    ensures
        ({
            let st = import_to(rd, cfg, default_udp, default_tcp, cfg.tests@.len() as int);
            let pairs = finish_to(st.rows, default_tcp, st.rows.len() as int).1;
            &&& st.unresolved.len() == 0
            &&& pairs.len() == req.pairs@.len()
            &&& forall|i: int|
                0 <= i < pairs.len() ==> restores(#[trigger] pairs[i], rd, req.pairs@[i])
        }),
{
    let sweeps = sweeps_of(req, base_config(state, rd, req));
    lemma_sound(state, rd, req, cfg);
    let total = req.pairs@.len() as int;
    lemma_rows(cfg, rd, req, sweeps, default_udp, default_tcp, total);
    let st = import_to(rd, cfg, default_udp, default_tcp, cfg.tests@.len() as int);
    lemma_finish(st.rows, default_tcp, total);
    let pairs = finish_to(st.rows, default_tcp, st.rows.len() as int).1;
    assert forall|i: int| 0 <= i < pairs.len() implies restores(
        #[trigger] pairs[i],
        rd,
        req.pairs@[i],
    ) by {
        lemma_fold_restores(cfg, rd, req, sweeps, default_tcp, i);
        assert(restores(bare(st.rows[i]).pair, rd, req.pairs@[i]));
    }
}

pub(crate) proof fn lemma_sound(state: UiState, rd: Readings, req: RunRequest, cfg: Config)
    requires
        request_told(state, rd, req) is Ok,
        req.ui_plan is None,
        rows_differ(req.pairs@),
        all_ends_spelled(rd, req.pairs@),
        cfg@ == request_config(state, rd, req),
    ensures
        sound_matrix(rd, req, sweeps_of(req, base_config(state, rd, req))),
        holds_matrix(cfg, rd, req, sweeps_of(req, base_config(state, rd, req))),
{
    let sweeps = sweeps_of(req, base_config(state, rd, req));
    lemma_steps_given(state, rd, req);
    assert forall|i: int| 0 <= i < req.pairs@.len() implies plain_row(#[trigger] req.pairs@[i]) by {
        lemma_rows_are_plain(state, rd, req, 0, i);
    }
    let all = matrix_tests_to(rd, req, sweeps, req.pairs@.len() as int);
    assert(cfg@.tests == all);
    assert(cfg@.tests == views(cfg.tests@));
    assert forall|k: int| 0 <= k < all.len() implies (#[trigger] cfg.tests@[k])@ == all[k] by {
        assert(cfg@.tests[k] == cfg.tests@[k]@);
    }
}

} // verus!
