//! In what order things run and are listed.
use vstd::prelude::*;
use crate::import::{list_before, steps_order, steps_order_to, steps_slot, TcpStepsView};
use crate::meaning::text::lemma_joined_with_separators_between;
use crate::model::{RunRequest, UiBinding, UiLinkSet, UiState, UiSuite};
use crate::readings::Readings;
use crate::suite_plan::{
    bound_pairs, others_to, place_of, places_to, request_config, task_order, validated_told,
};
use crate::text::{
    begins, has, joined, joined_to, lemma_text_before_irreflexive, lemma_text_before_transitive,
    lemma_text_total, occurs_at, text_before, texts,
};
use crate::validate_plan::{pair_ids, request_told, task_ids};

verus! {

// ---------------------------------------------------------------------------
// Tasks and pairs
// ---------------------------------------------------------------------------

proof fn lemma_place(list: Seq<Seq<char>>, text: Seq<char>, i: int)
    requires
        0 <= i <= list.len(),
    ensures
        i <= place_of(list, text, i) <= list.len(),
        place_of(list, text, i) < list.len() ==> list[place_of(list, text, i)] == text,
        forall|j: int| i <= j < place_of(list, text, i) ==> #[trigger] list[j] != text,
    decreases list.len() - i,
{
    if i < list.len() && list[i] != text {
        lemma_place(list, text, i + 1);
    }
}

proof fn lemma_places(list: Seq<Seq<char>>, wanted: Seq<Seq<char>>, n: int)
    requires
        0 <= n <= wanted.len(),
        list.len() <= usize::MAX,
        forall|i: int| 0 <= i < n ==> list.contains(#[trigger] wanted[i]),
    ensures
        places_to(list, wanted, n).len() == n,
        forall|i: int|
            0 <= i < n ==> (#[trigger] places_to(list, wanted, n)[i]) < list.len()
                && list[places_to(list, wanted, n)[i] as int] == wanted[i],
    decreases n,
{
    if n > 0 {
        lemma_places(list, wanted, n - 1);
        let before = places_to(list, wanted, n - 1);
        let all = places_to(list, wanted, n);
        lemma_place(list, wanted[n - 1], 0);
        let at = place_of(list, wanted[n - 1], 0);
        if at >= list.len() {
            assert(list.contains(wanted[n - 1]));
            let j = choose|j: int| 0 <= j < list.len() && list[j] == wanted[n - 1];
            assert(list[j] != wanted[n - 1]);
        }
        assert(all == before.push(at as usize));
        assert forall|i: int| 0 <= i < n implies (#[trigger] all[i]) < list.len()
            && list[all[i] as int] == wanted[i] by {
            if i < n - 1 {
                assert(all[i] == before[i]);
            }
        }
    }
}

proof fn lemma_others(list: Seq<Seq<char>>, wanted: Seq<Seq<char>>, n: int)
    requires
        0 <= n <= list.len() <= usize::MAX,
    ensures
        forall|i: int|
            0 <= i < others_to(list, wanted, n).len() ==> (#[trigger] others_to(
                list,
                wanted,
                n,
            )[i]) < n && !(wanted.contains(list[others_to(list, wanted, n)[i] as int])),
        forall|i: int, j: int|
            0 <= i < j < others_to(list, wanted, n).len() ==> #[trigger] others_to(
                list,
                wanted,
                n,
            )[i] < #[trigger] others_to(list, wanted, n)[j],
    decreases n,
{
    if n > 0 {
        lemma_others(list, wanted, n - 1);
        let before = others_to(list, wanted, n - 1);
        let all = others_to(list, wanted, n);
        assert forall|i: int| 0 <= i < all.len() implies (#[trigger] all[i]) < n && !(
        wanted.contains(list[all[i] as int])) by {
            if i < before.len() {
                assert(all[i] == before[i]);
            }
        }
        assert forall|i: int, j: int| 0 <= i < j < all.len() implies #[trigger] all[i]
            < #[trigger] all[j] by {
            assert(all[i] == before[i]);
            if j < before.len() {
                assert(all[j] == before[j]);
            }
        }
    }
}

/// The tasks that an order names run first, in that order, and the others after them in their own;
/// without an order all run in their own.
pub proof fn lemma_tasks_run_in_their_order(suite: UiSuite)
    requires
        suite.tasks@.len() <= usize::MAX,
        forall|i: int|
            0 <= i < suite.order@.len() ==> task_ids(suite.tasks@).contains(
                (#[trigger] suite.order@[i])@,
            ),
    ensures
        ({
            let run = task_order(suite);
            let named = suite.order@.len();
            &&& named <= run.len()
            &&& forall|i: int|
                0 <= i < named ==> suite.tasks@[(#[trigger] run[i]) as int].id@ == suite.order@[i]@
            &&& forall|i: int, j: int|
                named <= i < j < run.len() ==> #[trigger] run[i] < #[trigger] run[j]
            &&& forall|i: int|
                named <= i < run.len() ==> !(texts(suite.order@).contains(
                    suite.tasks@[(#[trigger] run[i]) as int].id@,
                ))
        }),
{
    let ids = task_ids(suite.tasks@);
    let order = texts(suite.order@);
    let run = task_order(suite);
    if order.len() > 0 {
        assert forall|i: int| 0 <= i < order.len() implies ids.contains(#[trigger] order[i]) by {
            assert(suite.order@[i]@ == order[i]);
        }
        lemma_places(ids, order, order.len() as int);
        lemma_others(ids, order, ids.len() as int);
        let first = places_to(ids, order, order.len() as int);
        let rest = others_to(ids, order, ids.len() as int);
        assert(run == first + rest);
        assert forall|i: int| 0 <= i < order.len() implies suite.tasks@[(
        #[trigger] run[i]) as int].id@ == suite.order@[i]@ by {
            assert(run[i] == first[i]);
            assert(ids[first[i] as int] == order[i]);
        }
        assert forall|i: int, j: int| order.len() <= i < j < run.len() implies #[trigger] run[i]
            < #[trigger] run[j] by {
            assert(run[i] == rest[i - order.len()] && run[j] == rest[j - order.len()]);
        }
        assert forall|i: int| order.len() <= i < run.len() implies !(texts(suite.order@).contains(
            suite.tasks@[(#[trigger] run[i]) as int].id@,
        )) by {
            assert(run[i] == rest[i - order.len()]);
            assert(ids[rest[i - order.len()] as int] == suite.tasks@[run[i] as int].id@);
        }
    }
}

/// A binding runs the pairs that it names, in that order; without names all pairs of the link set in
/// theirs.
pub proof fn lemma_bound_pairs_run_in_their_order(binding: UiBinding, set: UiLinkSet)
    requires
        set.pair_refs@.len() <= usize::MAX,
        forall|i: int|
            0 <= i < binding.pair_ids@.len() ==> pair_ids(set.pair_refs@).contains(
                (#[trigger] binding.pair_ids@[i])@,
            ),
    ensures
        ({
            let run = bound_pairs(binding, set);
            &&& binding.pair_ids@.len() == 0 ==> run.len() == set.pair_refs@.len() && forall|i: int|
                0 <= i < run.len() ==> #[trigger] run[i] == i
            &&& binding.pair_ids@.len() > 0 ==> run.len() == binding.pair_ids@.len() && forall|i: int|
                0 <= i < run.len() ==> set.pair_refs@[(#[trigger] run[i]) as int].id@
                    == binding.pair_ids@[i]@
        }),
{
    let ids = pair_ids(set.pair_refs@);
    let wanted = texts(binding.pair_ids@);
    let run = bound_pairs(binding, set);
    if wanted.len() > 0 {
        assert forall|i: int| 0 <= i < wanted.len() implies ids.contains(#[trigger] wanted[i]) by {
            assert(binding.pair_ids@[i]@ == wanted[i]);
        }
        lemma_places(ids, wanted, wanted.len() as int);
        assert forall|i: int| 0 <= i < run.len() implies set.pair_refs@[(
        #[trigger] run[i]) as int].id@ == binding.pair_ids@[i]@ by {
            assert(ids[run[i] as int] == wanted[i]);
        }
    }
}

// ---------------------------------------------------------------------------
// TCP steps of a row
// ---------------------------------------------------------------------------

proof fn lemma_list_asymmetric(a: Seq<Seq<char>>, b: Seq<Seq<char>>, i: int)
    requires
        i >= 0,
        list_before(a, b, i),
    ensures
        !list_before(b, a, i),
    decreases b.len() - i,
{
    if i < a.len() && i < b.len() {
        if a[i] == b[i] {
            lemma_list_asymmetric(a, b, i + 1);
        } else {
            lemma_text_before_irreflexive(a[i], b[i], 0);
        }
    }
}

proof fn lemma_list_not_before(a: Seq<Seq<char>>, b: Seq<Seq<char>>, c: Seq<Seq<char>>, i: int)
    requires
        i >= 0,
        !list_before(b, a, i),
        !list_before(c, b, i),
    ensures
        !list_before(c, a, i),
    decreases a.len() + b.len() + c.len() - i,
{
    if list_before(c, a, i) && i < a.len() {
        if i < c.len() && i < b.len() {
            lemma_text_total(a[i], b[i], 0);
            lemma_text_total(b[i], c[i], 0);
            lemma_text_total(a[i], c[i], 0);
            if a[i] == b[i] && b[i] == c[i] {
                lemma_list_not_before(a, b, c, i + 1);
            } else if a[i] == b[i] || b[i] == c[i] {
            } else {
                assert(text_before(a[i], b[i], 0));
                assert(text_before(b[i], c[i], 0));
                lemma_text_before_transitive(a[i], b[i], c[i], 0);
                if c[i] != a[i] {
                    lemma_text_before_irreflexive(a[i], c[i], 0);
                } else {
                    lemma_text_before_irreflexive(a[i], b[i], 0);
                }
            }
        }
    }
}

proof fn lemma_steps_slot(
    placed: Seq<usize>,
    tcp: Seq<TcpStepsView>,
    windows: Seq<Seq<char>>,
    k: int,
)
    requires
        0 <= k <= placed.len(),
    ensures
        ({
            let at = steps_slot(placed, tcp, windows, k);
            &&& 0 <= at <= k
            &&& at > 0 ==> !list_before(windows, tcp[placed[at - 1] as int].windows, 0)
            &&& forall|i: int|
                at <= i < k ==> list_before(
                    windows,
                    tcp[(#[trigger] placed[i]) as int].windows,
                    0,
                )
        }),
    decreases k,
{
    if k > 0 && list_before(windows, tcp[placed[k - 1] as int].windows, 0) {
        lemma_steps_slot(placed, tcp, windows, k - 1);
    }
}

proof fn lemma_steps_order_to(tcp: Seq<TcpStepsView>, n: int)
    requires
        0 <= n <= tcp.len() <= usize::MAX,
    ensures
        ({
            let all = steps_order_to(tcp, n);
            &&& all.len() == n
            &&& forall|i: int| 0 <= i < n ==> (#[trigger] all[i]) < n
            &&& forall|i: int, j: int|
                0 <= i < j < n ==> !list_before(
                    tcp[(#[trigger] all[j]) as int].windows,
                    tcp[(#[trigger] all[i]) as int].windows,
                    0,
                )
            &&& forall|k: int| 0 <= k < n ==> #[trigger] all.contains(k as usize)
        }),
    decreases n,
{
    if n > 0 {
        lemma_steps_order_to(tcp, n - 1);
        let placed = steps_order_to(tcp, n - 1);
        let windows = tcp[n - 1].windows;
        lemma_steps_slot(placed, tcp, windows, placed.len() as int);
        let at = steps_slot(placed, tcp, windows, placed.len() as int);
        let all = steps_order_to(tcp, n);
        assert(all == placed.insert(at, (n - 1) as usize));
        assert forall|i: int| 0 <= i < n implies (#[trigger] all[i]) < n by {
            if i < at {
                assert(all[i] == placed[i]);
            } else if i > at {
                assert(all[i] == placed[i - 1]);
            }
        }
        assert forall|i: int, j: int| 0 <= i < j < n implies !list_before(
            tcp[(#[trigger] all[j]) as int].windows,
            tcp[(#[trigger] all[i]) as int].windows,
            0,
        ) by {
            let a = if i < at {
                i
            } else {
                i - 1
            };
            let b = if j < at {
                j
            } else {
                j - 1
            };
            if i != at && j != at {
                assert(all[i] == placed[a] && all[j] == placed[b]);
            } else if j == at {
                assert(all[i] == placed[i]);
                if i < at - 1 {
                    assert(!list_before(
                        tcp[placed[at - 1] as int].windows,
                        tcp[placed[i] as int].windows,
                        0,
                    ));
                    lemma_list_not_before(
                        tcp[placed[i] as int].windows,
                        tcp[placed[at - 1] as int].windows,
                        windows,
                        0,
                    );
                }
            } else {
                assert(all[j] == placed[j - 1]);
                assert(list_before(windows, tcp[placed[j - 1] as int].windows, 0));
                lemma_list_asymmetric(windows, tcp[placed[j - 1] as int].windows, 0);
            }
        }
        assert forall|k: int| 0 <= k < n implies #[trigger] all.contains(k as usize) by {
            if k < n - 1 {
                assert(placed.contains(k as usize));
                let i = choose|i: int| 0 <= i < placed.len() && placed[i] == k as usize;
                if i < at {
                    assert(all[i] == k as usize);
                } else {
                    assert(all[i + 1] == k as usize);
                }
            } else {
                assert(all[at] == k as usize);
            }
        }
    }
}

/// The TCP runs of an imported row are listed by their windows, in the order of words, and none is
/// left out.
pub proof fn lemma_steps_are_listed_by_window(tcp: Seq<TcpStepsView>)
    requires
        tcp.len() <= usize::MAX,
    ensures
        ({
            let all = steps_order(tcp);
            &&& all.len() == tcp.len()
            &&& forall|i: int, j: int|
                0 <= i < j < all.len() ==> !list_before(
                    tcp[(#[trigger] all[j]) as int].windows,
                    tcp[(#[trigger] all[i]) as int].windows,
                    0,
                )
            &&& forall|k: int| 0 <= k < tcp.len() ==> #[trigger] all.contains(k as usize)
        }),
{
    lemma_steps_order_to(tcp, tcp.len() as int);
}

/// Lists are ordered like words: by the first item in which they differ, a list before any that
/// continues it.
pub proof fn lemma_list_order_is_that_of_words(
    head: Seq<Seq<char>>,
    a: Seq<Seq<char>>,
    b: Seq<Seq<char>>,
)
    requires
        a.len() == 0 || b.len() == 0 || a[0] != b[0],
    ensures
        list_before(head + a, head + b, 0) <==> b.len() > 0 && (a.len() == 0 || text_before(
            a[0],
            b[0],
            0,
        )),
{
    lemma_list_from(head, a, b, 0);
}

proof fn lemma_list_from(head: Seq<Seq<char>>, a: Seq<Seq<char>>, b: Seq<Seq<char>>, i: int)
    requires
        a.len() == 0 || b.len() == 0 || a[0] != b[0],
        0 <= i <= head.len(),
    ensures
        list_before(head + a, head + b, i) <==> b.len() > 0 && (a.len() == 0 || text_before(
            a[0],
            b[0],
            0,
        )),
    decreases head.len() - i,
{
    let (s, t) = (head + a, head + b);
    if i < head.len() {
        assert(s[i] == head[i] && t[i] == head[i]);
        lemma_list_from(head, a, b, i + 1);
    } else {
        if a.len() > 0 {
            assert(s[i] == a[0]);
        }
        if b.len() > 0 {
            assert(t[i] == b[0]);
        }
    }
}

// ---------------------------------------------------------------------------
// Requests
// ---------------------------------------------------------------------------

proof fn lemma_joined_has(v: Seq<Seq<char>>, sep: Seq<char>, n: int, i: int)
    requires
        0 <= i < n <= v.len(),
    ensures
        has(joined_to(v, sep, n), v[i]),
    decreases n,
{
    let all = joined_to(v, sep, n);
    if n == 1 {
        assert(all.subrange(0, v[0].len() as int) =~= v[0]);
        assert(occurs_at(all, v[0], 0));
    } else if i == n - 1 {
        let k = (all.len() - v[i].len()) as int;
        assert(all.subrange(k, k + v[i].len()) =~= v[i]);
        assert(occurs_at(all, v[i], k));
    } else {
        lemma_joined_has(v, sep, n - 1, i);
        let before = joined_to(v, sep, n - 1);
        let k = choose|k: int| occurs_at(before, v[i], k);
        assert(all.subrange(k, k + v[i].len()) =~= before.subrange(k, k + v[i].len()));
        assert(occurs_at(all, v[i], k));
    }
}

/// A request becomes its configuration exactly when it is in order and the configuration has no
/// problems. What is wrong with the request is told first; else every problem is told.
pub proof fn lemma_requests_in_order_are_configured(
    state: UiState,
    rd: Readings,
    req: RunRequest,
    problems: Seq<Seq<char>>,
    i: int,
)
    ensures
        validated_told(state, rd, req, problems) is Ok <==> request_told(state, rd, req) is Ok
            && problems.len() == 0,
        validated_told(state, rd, req, problems) matches Ok(cfg) ==> cfg == request_config(
            state,
            rd,
            req,
        ),
        request_told(state, rd, req) matches Err(e) ==> (validated_told(state, rd, req, problems)
            matches Err(said) && said == e),
        request_told(state, rd, req) is Ok && 0 <= i < problems.len() ==> (validated_told(
            state,
            rd,
            req,
            problems,
        ) matches Err(said) && has(said, problems[i]) && begins(said, "配置项异常："@)),
        request_told(state, rd, req) is Ok && problems.len() == 2 ==> (validated_told(
            state,
            rd,
            req,
            problems,
        ) matches Err(said) && said == "配置项异常："@ + (problems[0] + "；"@ + problems[1])),
{
    if request_told(state, rd, req) is Ok && problems.len() > 0 {
        let list = joined(problems, "；"@);
        let head = "配置项异常："@;
        let said = head + list;
        assert(said.subrange(0, head.len() as int) =~= head);
        if 0 <= i < problems.len() {
            lemma_joined_has(problems, "；"@, problems.len() as int, i);
            let k = choose|k: int| occurs_at(list, problems[i], k);
            let at = head.len() + k;
            assert(said.subrange(at, at + problems[i].len()) =~= list.subrange(
                k,
                k + problems[i].len(),
            ));
            assert(occurs_at(said, problems[i], at));
        }
        if problems.len() == 2 {
            let rest = problems.skip(1);
            assert(problems =~= seq![problems[0]] + rest);
            lemma_joined_with_separators_between(problems[0], rest, "；"@);
            assert(rest =~= seq![problems[1]]);
            lemma_joined_with_separators_between(problems[1], Seq::empty(), "；"@);
        }
    }
}

} // verus!
