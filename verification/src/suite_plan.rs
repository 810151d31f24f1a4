//! From a suite plan to the configuration that runs it.
use vstd::prelude::*;
use vstd::string::*;
use crate::config::{Config, ConfigView, PingCfgView, TestSpec, TestSpecView};
use crate::model::{RunRequest, UiBinding, UiLinkSet, UiPairRef, UiPlan, UiState, UiSuite, UiTask};
use crate::plan::{
    all_with_wifi_targets, apply_wifi_to_all, base_config, config_base, config_from_matrix,
    matrix_config,
};
use crate::readings::Readings;
use crate::suite::{task_tests, ui_specs_for_task};
use crate::sweep::{deduped, distinct_numbers, nonzero, nonzero_numbers};
use crate::text::{cat2, group_views, join, joined, lists, same, texts, views};
use crate::validate_plan::{
    find_set, find_suite, pair_ids, request_told, set_index, suite_index, task_ids,
    validate_request,
};

verus! {

/// The configuration of a suite plan without its tests.
pub open spec fn suite_base_config(state: UiState, rd: Readings, req: RunRequest) -> ConfigView {
    let base = base_config(state, rd, req);
    ConfigView {
        ping: PingCfgView {
            count: if req.ping_count > 0 {
                req.ping_count
            } else {
                base.ping.count
            },
            payload_sizes: if req.ping_payload_sizes@.len() > 0 {
                deduped(nonzero(req.ping_payload_sizes@))
            } else {
                base.ping.payload_sizes
            },
            ..base.ping
        },
        ..base
    }
}

/// The configuration of a suite plan without its tests.
pub fn ui_request_base_config(state: &UiState, rd: &Readings, req: &RunRequest) -> (r: Config)
    ensures
        r@ == suite_base_config(*state, *rd, *req),
{
    let mut cfg = config_base(state, rd, req);
    if req.ping_count > 0 {
        cfg.ping.count = req.ping_count;
    }
    if req.ping_payload_sizes.len() > 0 {
        let sizes = nonzero_numbers(&req.ping_payload_sizes);
        cfg.ping.payload_sizes = distinct_numbers(&sizes);
    }
    cfg
}

// ---------------------------------------------------------------------------
// The order of bindings
// ---------------------------------------------------------------------------

/// Where a binding with order `key` goes among the first `k` of those already placed: behind all
/// that are not ordered after it.
pub open spec fn slot_for(placed: Seq<usize>, bindings: Seq<UiBinding>, key: i64, k: int) -> int
    decreases k,
{
    if k <= 0 {
        0
    } else if bindings[placed[k - 1] as int].order <= key {
        k
    } else {
        slot_for(placed, bindings, key, k - 1)
    }
}

/// The first `n` bindings by their order, and by their place in the plan where that is equal.
pub open spec fn run_order_to(bindings: Seq<UiBinding>, n: int) -> Seq<usize>
    decreases n,
{
    if n <= 0 {
        Seq::empty()
    } else {
        let placed = run_order_to(bindings, n - 1);
        placed.insert(
            slot_for(placed, bindings, bindings[n - 1].order, placed.len() as int),
            (n - 1) as usize,
        )
    }
}

/// The bindings in the order in which they run.
pub open spec fn run_order(bindings: Seq<UiBinding>) -> Seq<usize> {
    run_order_to(bindings, bindings.len() as int)
}

/// Whether a binding runs before another: by its order, then by its place in the plan.
pub open spec fn runs_before(bindings: Seq<UiBinding>, a: usize, b: usize) -> bool {
    bindings[a as int].order < bindings[b as int].order || (bindings[a as int].order
        == bindings[b as int].order && a < b)
}

proof fn lemma_slot(placed: Seq<usize>, bindings: Seq<UiBinding>, key: i64, k: int)
    requires
        0 <= k <= placed.len(),
    ensures
        0 <= slot_for(placed, bindings, key, k) <= k,
        slot_for(placed, bindings, key, k) > 0 ==> bindings[placed[slot_for(
            placed,
            bindings,
            key,
            k,
        ) - 1] as int].order <= key,
        forall|i: int|
            slot_for(placed, bindings, key, k) <= i < k ==> bindings[#[trigger] placed[i] as int].order
                > key,
    decreases k,
{
    if k > 0 && bindings[placed[k - 1] as int].order > key {
        lemma_slot(placed, bindings, key, k - 1);
    }
}

pub(crate) proof fn lemma_run_order_to(bindings: Seq<UiBinding>, n: int)
    requires
        0 <= n <= bindings.len(),
        bindings.len() <= usize::MAX,
    ensures
        run_order_to(bindings, n).len() == n,
        forall|i: int| 0 <= i < n ==> #[trigger] run_order_to(bindings, n)[i] < n,
        forall|k: int|
            0 <= k < n ==> run_order_to(bindings, n).contains(#[trigger] (k as usize)),
        forall|i: int, j: int|
            0 <= i < j < n ==> runs_before(
                bindings,
                #[trigger] run_order_to(bindings, n)[i],
                #[trigger] run_order_to(bindings, n)[j],
            ),
    decreases n,
{
    if n > 0 {
        lemma_run_order_to(bindings, n - 1);
        let placed = run_order_to(bindings, n - 1);
        let key = bindings[n - 1].order;
        lemma_slot(placed, bindings, key, placed.len() as int);
        let at = slot_for(placed, bindings, key, placed.len() as int);
        let all = run_order_to(bindings, n);
        assert(all == placed.insert(at, (n - 1) as usize));
        assert forall|i: int| 0 <= i < n implies #[trigger] all[i] < n by {
            if i < at {
                assert(all[i] == placed[i]);
            } else if i > at {
                assert(all[i] == placed[i - 1]);
            }
        }
        assert forall|k: int| 0 <= k < n implies all.contains(#[trigger] (k as usize)) by {
            if k == n - 1 {
                assert(all[at] == k as usize);
            } else {
                assert(placed.contains(k as usize));
                let i = choose|i: int| 0 <= i < placed.len() && placed[i] == k as usize;
                if i < at {
                    assert(all[i] == k as usize);
                } else {
                    assert(all[i + 1] == k as usize);
                }
            }
        }
        assert forall|i: int, j: int| 0 <= i < j < n implies runs_before(
            bindings,
            #[trigger] all[i],
            #[trigger] all[j],
        ) by {
            let before_i = if i < at {
                i
            } else {
                i - 1
            };
            let before_j = if j < at {
                j
            } else {
                j - 1
            };
            if i != at && j != at {
                assert(all[i] == placed[before_i] && all[j] == placed[before_j]);
                assert(runs_before(bindings, placed[before_i], placed[before_j]));
            } else if j == at {
                assert(all[i] == placed[i]);
                assert(placed[i] < n - 1);
                if i < at - 1 {
                    assert(runs_before(bindings, placed[i], placed[at - 1]));
                }
            } else {
                assert(all[j] == placed[j - 1]);
                assert(bindings[placed[j - 1] as int].order > key);
            }
        }
    }
}

/// Each binding runs once, and they run by their order and then by their place in the plan.
pub proof fn lemma_run_order_sorts(bindings: Seq<UiBinding>)
    requires
        bindings.len() <= usize::MAX,
    ensures
        run_order(bindings).len() == bindings.len(),
        forall|k: int|
            0 <= k < bindings.len() ==> run_order(bindings).contains(#[trigger] (k as usize)),
        forall|i: int, j: int|
            0 <= i < j < bindings.len() ==> runs_before(
                bindings,
                #[trigger] run_order(bindings)[i],
                #[trigger] run_order(bindings)[j],
            ),
{
    lemma_run_order_to(bindings, bindings.len() as int);
}

/// The bindings in the order in which they run.
pub fn order_bindings(bindings: &Vec<UiBinding>) -> (r: Vec<usize>)
    ensures
        r@ == run_order(bindings@),
        forall|i: int| 0 <= i < r@.len() ==> #[trigger] r@[i] < bindings@.len(),
{
    let count: usize = bindings.len();
    let mut placed: Vec<usize> = Vec::new();
    let mut n: usize = 0;
    while n < count
        invariant
            n <= count,
            count == bindings@.len(),
            placed@ == run_order_to(bindings@, n as int),
        decreases bindings@.len() - n,
    {
        proof {
            lemma_run_order_to(bindings@, n as int);
        }
        let key: i64 = bindings[n].order;
        let mut k: usize = placed.len();
        while k > 0 && bindings[placed[k - 1]].order > key
            invariant
                k <= placed@.len(),
                forall|i: int| 0 <= i < placed@.len() ==> #[trigger] placed@[i] < bindings@.len(),
                slot_for(placed@, bindings@, key, placed@.len() as int) == slot_for(
                    placed@,
                    bindings@,
                    key,
                    k as int,
                ),
            decreases k,
        {
            k -= 1;
        }
        placed.insert(k, n);
        n += 1;
    }
    proof {
        lemma_run_order_to(bindings@, n as int);
    }
    placed
}

// ---------------------------------------------------------------------------
// The pairs and tasks of a binding
// ---------------------------------------------------------------------------

/// The index of the first text that is `text`, from `i` on; the length where there is none.
pub open spec fn place_of(list: Seq<Seq<char>>, text: Seq<char>, i: int) -> int
    decreases list.len() - i,
{
    if i < 0 || i >= list.len() {
        list.len() as int
    } else if list[i] == text {
        i
    } else {
        place_of(list, text, i + 1)
    }
}

/// The places that the first `n` of `wanted` have in `list`, those that have one.
pub open spec fn places_to(list: Seq<Seq<char>>, wanted: Seq<Seq<char>>, n: int) -> Seq<usize>
    decreases n,
{
    if n <= 0 {
        Seq::empty()
    } else {
        let at = place_of(list, wanted[n - 1], 0);
        if at < list.len() {
            places_to(list, wanted, n - 1).push(at as usize)
        } else {
            places_to(list, wanted, n - 1)
        }
    }
}

/// The first `n` places of `list` whose texts are not in `wanted`.
pub open spec fn others_to(list: Seq<Seq<char>>, wanted: Seq<Seq<char>>, n: int) -> Seq<usize>
    decreases n,
{
    if n <= 0 {
        Seq::empty()
    } else if wanted.contains(list[n - 1]) {
        others_to(list, wanted, n - 1)
    } else {
        others_to(list, wanted, n - 1).push((n - 1) as usize)
    }
}

/// All places in their own order.
pub open spec fn all_places(n: nat) -> Seq<usize> {
    Seq::new(n, |i: int| i as usize)
}

/// The pairs that a binding runs: those it names, or all of its link set.
pub open spec fn bound_pairs(binding: UiBinding, set: UiLinkSet) -> Seq<usize> {
    if binding.pair_ids@.len() == 0 {
        all_places(set.pair_refs@.len())
    } else {
        places_to(
            pair_ids(set.pair_refs@),
            texts(binding.pair_ids@),
            binding.pair_ids@.len() as int,
        )
    }
}

/// The tasks of a suite in the order in which they run: those that its order names, then the
/// others.
pub open spec fn task_order(suite: UiSuite) -> Seq<usize> {
    let ids = task_ids(suite.tasks@);
    let order = texts(suite.order@);
    if order.len() == 0 {
        all_places(ids.len())
    } else {
        places_to(ids, order, order.len() as int) + others_to(ids, order, ids.len() as int)
    }
}

pub(crate) proof fn lemma_place_of(list: Seq<Seq<char>>, text: Seq<char>, i: int)
    requires
        0 <= i <= list.len(),
    ensures
        i <= place_of(list, text, i) <= list.len(),
        place_of(list, text, i) < list.len() ==> list[place_of(list, text, i)] == text,
        forall|k: int| i <= k < place_of(list, text, i) ==> list[k] != text,
    decreases list.len() - i,
{
    if i < list.len() && list[i] != text {
        lemma_place_of(list, text, i + 1);
    }
}

proof fn lemma_places_reach(list: Seq<Seq<char>>, wanted: Seq<Seq<char>>, n: int, k: int)
    requires
        0 <= n <= wanted.len(),
        list.no_duplicates(),
        list.len() <= usize::MAX,
        0 <= k < list.len(),
        exists|j: int| 0 <= j < n && wanted[j] == list[k],
    ensures
        places_to(list, wanted, n).contains(k as usize),
    decreases n,
{
    let j = choose|j: int| 0 <= j < n && wanted[j] == list[k];
    let at = place_of(list, wanted[n - 1], 0);
    lemma_place_of(list, wanted[n - 1], 0);
    let before = places_to(list, wanted, n - 1);
    let all = places_to(list, wanted, n);
    if wanted[n - 1] == list[k] {
        assert(at == k);
        assert(all[before.len() as int] == k as usize);
    } else {
        lemma_places_reach(list, wanted, n - 1, k);
        let i = choose|i: int| 0 <= i < before.len() && before[i] == k as usize;
        assert(all[i] == k as usize);
    }
}

proof fn lemma_others_reach(list: Seq<Seq<char>>, wanted: Seq<Seq<char>>, n: int, k: int)
    requires
        0 <= k < n <= list.len(),
        list.len() <= usize::MAX,
        !wanted.contains(list[k]),
    ensures
        others_to(list, wanted, n).contains(k as usize),
    decreases n,
{
    let before = others_to(list, wanted, n - 1);
    let all = others_to(list, wanted, n);
    if k == n - 1 {
        assert(all[before.len() as int] == k as usize);
    } else {
        lemma_others_reach(list, wanted, n - 1, k);
        let i = choose|i: int| 0 <= i < before.len() && before[i] == k as usize;
        assert(all[i] == k as usize);
    }
}

/// No task of a suite with distinct ids is left out, whatever its order names.
pub proof fn lemma_task_order_is_complete(suite: UiSuite, k: int)
    requires
        task_ids(suite.tasks@).no_duplicates(),
        suite.tasks@.len() <= usize::MAX,
        0 <= k < suite.tasks@.len(),
    ensures
        task_order(suite).contains(k as usize),
{
    let ids = task_ids(suite.tasks@);
    let order = texts(suite.order@);
    if order.len() == 0 {
        assert(all_places(ids.len())[k] == k as usize);
    } else {
        let named = places_to(ids, order, order.len() as int);
        let rest = others_to(ids, order, ids.len() as int);
        if order.contains(ids[k]) {
            let j = choose|j: int| 0 <= j < order.len() && order[j] == ids[k];
            lemma_places_reach(ids, order, order.len() as int, k);
            let i = choose|i: int| 0 <= i < named.len() && named[i] == k as usize;
            assert((named + rest)[i] == k as usize);
        } else {
            lemma_others_reach(ids, order, ids.len() as int, k);
            let i = choose|i: int| 0 <= i < rest.len() && rest[i] == k as usize;
            assert((named + rest)[named.len() + i] == k as usize);
        }
    }
}

/// All places in their own order.
pub fn places_up_to(n: usize) -> (r: Vec<usize>)
    ensures
        r@ == all_places(n as nat),
{
    let mut r: Vec<usize> = Vec::new();
    let mut i: usize = 0;
    while i < n
        invariant
            i <= n,
            r@ == all_places(i as nat),
        decreases n - i,
    {
        r.push(i);
        assert(all_places(i as nat).push(i) =~= all_places((i + 1) as nat));
        i += 1;
    }
    r
}

/// The ids of a list of pairs.
pub fn ids_of_pairs(pairs: &Vec<UiPairRef>) -> (r: Vec<String>)
    ensures
        texts(r@) == pair_ids(pairs@),
{
    broadcast use group_views;

    let mut r: Vec<String> = Vec::new();
    let mut i: usize = 0;
    while i < pairs.len()
        invariant
            i <= pairs@.len(),
            texts(r@) == pair_ids(pairs@).take(i as int),
        decreases pairs@.len() - i,
    {
        r.push(pairs[i].id.clone());
        assert(pair_ids(pairs@).take(i as int).push(pairs@[i as int].id@) =~= pair_ids(
            pairs@,
        ).take(i + 1));
        i += 1;
    }
    assert(pair_ids(pairs@).take(i as int) =~= pair_ids(pairs@));
    r
}

/// The ids of a list of tasks.
pub fn ids_of_tasks(tasks: &Vec<UiTask>) -> (r: Vec<String>)
    ensures
        texts(r@) == task_ids(tasks@),
{
    broadcast use group_views;

    let mut r: Vec<String> = Vec::new();
    let mut i: usize = 0;
    while i < tasks.len()
        invariant
            i <= tasks@.len(),
            texts(r@) == task_ids(tasks@).take(i as int),
        decreases tasks@.len() - i,
    {
        r.push(tasks[i].id.clone());
        assert(task_ids(tasks@).take(i as int).push(tasks@[i as int].id@) =~= task_ids(
            tasks@,
        ).take(i + 1));
        i += 1;
    }
    assert(task_ids(tasks@).take(i as int) =~= task_ids(tasks@));
    r
}

/// The places that texts have in a list, those that have one.
pub fn find_places(list: &Vec<String>, wanted: &Vec<String>) -> (r: Vec<usize>)
    ensures
        r@ == places_to(texts(list@), texts(wanted@), wanted@.len() as int),
        forall|i: int| 0 <= i < r@.len() ==> #[trigger] r@[i] < list@.len(),
{
    let ghost all = texts(list@);
    let mut r: Vec<usize> = Vec::new();
    let mut n: usize = 0;
    while n < wanted.len()
        invariant
            n <= wanted@.len(),
            all == texts(list@),
            r@ == places_to(all, texts(wanted@), n as int),
            forall|i: int| 0 <= i < r@.len() ==> #[trigger] r@[i] < list@.len(),
        decreases wanted@.len() - n,
    {
        let ghost text = wanted@[n as int]@;
        assert(texts(wanted@)[n as int] == text);
        let mut k: usize = 0;
        while k < list.len() && !same(list[k].as_str(), wanted[n].as_str())
            invariant
                k <= list@.len(),
                n < wanted@.len(),
                all == texts(list@),
                text == wanted@[n as int]@,
                place_of(all, text, 0) == place_of(all, text, k as int),
            decreases list@.len() - k,
        {
            assert(all[k as int] == list@[k as int]@);
            k += 1;
        }
        if k < list.len() {
            assert(all[k as int] == list@[k as int]@);
            r.push(k);
        }
        n += 1;
    }
    r
}

/// The pairs that a binding runs.
pub fn pairs_of_binding(binding: &UiBinding, set: &UiLinkSet) -> (r: Vec<usize>)
    ensures
        r@ == bound_pairs(*binding, *set),
        forall|i: int| 0 <= i < r@.len() ==> #[trigger] r@[i] < set.pair_refs@.len(),
{
    if binding.pair_ids.len() == 0 {
        return places_up_to(set.pair_refs.len());
    }
    let ids = ids_of_pairs(&set.pair_refs);
    assert(texts(ids@).len() == ids@.len());
    find_places(&ids, &binding.pair_ids)
}

/// The tasks of a suite in the order in which they run.
pub fn order_tasks(suite: &UiSuite) -> (r: Vec<usize>)
    ensures
        r@ == task_order(*suite),
        forall|i: int| 0 <= i < r@.len() ==> #[trigger] r@[i] < suite.tasks@.len(),
{
    let ids = ids_of_tasks(&suite.tasks);
    let ghost list = texts(ids@);
    let ghost order = texts(suite.order@);
    assert(list.len() == ids@.len());
    assert(order.len() == suite.order@.len());
    if suite.order.len() == 0 {
        return places_up_to(suite.tasks.len());
    }
    let mut r = find_places(&ids, &suite.order);
    let ghost named = r@;
    let mut n: usize = 0;
    assert(named + Seq::<usize>::empty() =~= named);
    while n < ids.len()
        invariant
            n <= ids@.len(),
            ids@.len() == suite.tasks@.len(),
            list == texts(ids@),
            order == texts(suite.order@),
            r@ == named + others_to(list, order, n as int),
            forall|i: int| 0 <= i < r@.len() ==> #[trigger] r@[i] < suite.tasks@.len(),
        decreases ids@.len() - n,
    {
        assert(list[n as int] == ids@[n as int]@);
        let ghost before = others_to(list, order, n as int);
        if !lists(&suite.order, ids[n].as_str()) {
            r.push(n);
            assert((named + before).push(n) =~= named + before.push(n));
        }
        n += 1;
    }
    r
}

// ---------------------------------------------------------------------------
// Tests of a plan
// ---------------------------------------------------------------------------

/// The tests of one pair for the first `n` tasks in their order.
pub open spec fn pair_task_tests_to(
    rd: Readings,
    plan: UiPlan,
    req: RunRequest,
    cfg: ConfigView,
    binding: UiBinding,
    set: UiLinkSet,
    suite: UiSuite,
    pair: UiPairRef,
    n: int,
) -> Seq<TestSpecView>
    decreases n,
{
    if n <= 0 {
        Seq::empty()
    } else {
        let task = suite.tasks@[task_order(suite)[n - 1] as int];
        pair_task_tests_to(rd, plan, req, cfg, binding, set, suite, pair, n - 1)
            + all_with_wifi_targets(
            task_tests(rd, pair, suite, task, req, binding.id@, set, plan.recipes, cfg),
            rd,
            req,
            pair.src@,
            pair.dst@,
        )
    }
}

/// The tests of one pair for all tasks in their order.
pub fn specs_for_bound_pair(
    rd: &Readings,
    plan: &UiPlan,
    req: &RunRequest,
    cfg: &Config,
    binding: &UiBinding,
    set: &UiLinkSet,
    suite: &UiSuite,
    pair: &UiPairRef,
) -> (r: Vec<TestSpec>)
    ensures
        views(r@) == pair_task_tests_to(
            *rd,
            *plan,
            *req,
            cfg@,
            *binding,
            *set,
            *suite,
            *pair,
            task_order(*suite).len() as int,
        ),
{
    broadcast use group_views;

    let order = order_tasks(suite);
    let mut r: Vec<TestSpec> = Vec::new();
    let mut i: usize = 0;
    while i < order.len()
        invariant
            i <= order@.len(),
            order@ == task_order(*suite),
            forall|k: int| 0 <= k < order@.len() ==> #[trigger] order@[k] < suite.tasks@.len(),
            views(r@) == pair_task_tests_to(
                *rd,
                *plan,
                *req,
                cfg@,
                *binding,
                *set,
                *suite,
                *pair,
                i as int,
            ),
        decreases order@.len() - i,
    {
        let task = &suite.tasks[order[i]];
        let specs = ui_specs_for_task(
            rd,
            pair,
            suite,
            task,
            req,
            binding.id.as_str(),
            set,
            &plan.recipes,
            cfg,
        );
        let mut more = apply_wifi_to_all(specs, rd, req, pair.src.as_str(), pair.dst.as_str());
        r.append(&mut more);
        i += 1;
    }
    r
}

/// The tests of a binding for the first `n` of its pairs.
pub open spec fn bound_tests_to(
    rd: Readings,
    plan: UiPlan,
    req: RunRequest,
    cfg: ConfigView,
    binding: UiBinding,
    set: UiLinkSet,
    suite: UiSuite,
    n: int,
) -> Seq<TestSpecView>
    decreases n,
{
    if n <= 0 {
        Seq::empty()
    } else {
        let pair = set.pair_refs@[bound_pairs(binding, set)[n - 1] as int];
        bound_tests_to(rd, plan, req, cfg, binding, set, suite, n - 1) + pair_task_tests_to(
            rd,
            plan,
            req,
            cfg,
            binding,
            set,
            suite,
            pair,
            task_order(suite).len() as int,
        )
    }
}

/// The tests of a binding; none where it names a link set or a suite that is not there.
pub open spec fn binding_tests(
    rd: Readings,
    plan: UiPlan,
    req: RunRequest,
    cfg: ConfigView,
    binding: UiBinding,
) -> Seq<TestSpecView> {
    let set_at = set_index(plan.link_sets@, binding.link_set_id@, 0);
    let suite_at = suite_index(plan.suites@, binding.suite_id@, 0);
    if set_at >= plan.link_sets@.len() || suite_at >= plan.suites@.len() {
        Seq::empty()
    } else {
        let set = plan.link_sets@[set_at];
        let suite = plan.suites@[suite_at];
        bound_tests_to(
            rd,
            plan,
            req,
            cfg,
            binding,
            set,
            suite,
            bound_pairs(binding, set).len() as int,
        )
    }
}

/// The tests of a binding.
pub fn specs_for_binding(
    rd: &Readings,
    plan: &UiPlan,
    req: &RunRequest,
    cfg: &Config,
    binding: &UiBinding,
) -> (r: Vec<TestSpec>)
    ensures
        views(r@) == binding_tests(*rd, *plan, *req, cfg@, *binding),
{
    broadcast use group_views;

    let mut r: Vec<TestSpec> = Vec::new();
    let set_at: usize = find_set(&plan.link_sets, binding.link_set_id.as_str());
    let suite_at: usize = find_suite(&plan.suites, binding.suite_id.as_str());
    if set_at >= plan.link_sets.len() || suite_at >= plan.suites.len() {
        return r;
    }
    let set = &plan.link_sets[set_at];
    let suite = &plan.suites[suite_at];
    let pairs = pairs_of_binding(binding, set);
    let mut i: usize = 0;
    while i < pairs.len()
        invariant
            i <= pairs@.len(),
            pairs@ == bound_pairs(*binding, *set),
            forall|k: int| 0 <= k < pairs@.len() ==> #[trigger] pairs@[k] < set.pair_refs@.len(),
            views(r@) == bound_tests_to(
                *rd,
                *plan,
                *req,
                cfg@,
                *binding,
                *set,
                *suite,
                i as int,
            ),
        decreases pairs@.len() - i,
    {
        let pair = &set.pair_refs[pairs[i]];
        let mut more = specs_for_bound_pair(rd, plan, req, cfg, binding, set, suite, pair);
        r.append(&mut more);
        i += 1;
    }
    r
}

/// The tests of the first `n` bindings in the order in which they run.
pub open spec fn plan_tests_to(
    rd: Readings,
    plan: UiPlan,
    req: RunRequest,
    cfg: ConfigView,
    n: int,
) -> Seq<TestSpecView>
    decreases n,
{
    if n <= 0 {
        Seq::empty()
    } else {
        let binding = plan.bindings@[run_order(plan.bindings@)[n - 1] as int];
        plan_tests_to(rd, plan, req, cfg, n - 1) + binding_tests(rd, plan, req, cfg, binding)
    }
}

/// The configuration that runs a suite plan.
pub open spec fn suite_config(state: UiState, rd: Readings, req: RunRequest, plan: UiPlan) -> ConfigView {
    let base = suite_base_config(state, rd, req);
    ConfigView {
        tests: plan_tests_to(rd, plan, req, base, run_order(plan.bindings@).len() as int),
        ..base
    }
}

/// The configuration that runs a suite plan.
pub fn config_from_ui_plan(state: &UiState, rd: &Readings, req: &RunRequest, plan: &UiPlan) -> (r:
    Config)
    ensures
        r@ == suite_config(*state, *rd, *req, *plan),
{
    broadcast use group_views;

    let mut cfg = ui_request_base_config(state, rd, req);
    let ghost base = cfg@;
    let order = order_bindings(&plan.bindings);
    let mut tests: Vec<TestSpec> = Vec::new();
    let mut i: usize = 0;
    while i < order.len()
        invariant
            i <= order@.len(),
            order@ == run_order(plan.bindings@),
            base == cfg@,
            forall|k: int| 0 <= k < order@.len() ==> #[trigger] order@[k] < plan.bindings@.len(),
            views(tests@) == plan_tests_to(*rd, *plan, *req, base, i as int),
        decreases order@.len() - i,
    {
        let mut more = specs_for_binding(rd, plan, req, &cfg, &plan.bindings[order[i]]);
        tests.append(&mut more);
        i += 1;
    }
    cfg.tests = tests;
    cfg
}

// ---------------------------------------------------------------------------
// The configuration of a request
// ---------------------------------------------------------------------------

/// The configuration that runs a request: its suite plan, or its matrix where it has none.
pub open spec fn request_config(state: UiState, rd: Readings, req: RunRequest) -> ConfigView {
    match req.ui_plan {
        Some(plan) => suite_config(state, rd, req, plan),
        None => matrix_config(state, rd, req),
    }
}

/// The configuration that runs a request. Where the request brings a project's configuration in
/// `master_config`, `state.cfg` must already hold it: the caller puts it over the console's own with
/// [`with_baseline`](crate::baseline::with_baseline).
pub fn config_from_request(state: &UiState, rd: &Readings, req: &RunRequest) -> (r: Config)
    ensures
        r@ == request_config(*state, *rd, *req),
{
    match &req.ui_plan {
        Some(plan) => config_from_ui_plan(state, rd, req, plan),
        None => config_from_matrix(state, rd, req),
    }
}

/// What comes of a request: a complaint about it, the problems that were found in its configuration,
/// or that configuration.
pub open spec fn validated_told(
    state: UiState,
    rd: Readings,
    req: RunRequest,
    problems: Seq<Seq<char>>,
) -> Result<ConfigView, Seq<char>> {
    match request_told(state, rd, req) {
        Err(e) => Err(e),
        Ok(_) => if problems.len() > 0 {
            Err("配置项异常："@ + joined(problems, "；"@))
        } else {
            Ok(request_config(state, rd, req))
        },
    }
}

/// The configuration that runs a request, once the request has passed all checks and no problems were
/// found in the configuration itself.
pub fn validated_config_from_request(
    state: &UiState,
    rd: &Readings,
    req: &RunRequest,
    problems: &Vec<String>,
) -> (r: Result<Config, String>)
    ensures
        match r {
            Ok(cfg) => validated_told(*state, *rd, *req, texts(problems@)) == Ok::<
                ConfigView,
                Seq<char>,
            >(cfg@),
            Err(e) => validated_told(*state, *rd, *req, texts(problems@)) == Err::<
                ConfigView,
                Seq<char>,
            >(e@),
        },
{
    match validate_request(state, rd, req) {
        Err(e) => {
            return Err(e);
        },
        Ok(_) => {},
    }
    assert(texts(problems@).len() == problems@.len());
    if problems.len() > 0 {
        let list = join(problems, "；");
        return Err(cat2("配置项异常：", list.as_str()));
    }
    Ok(config_from_request(state, rd, req))
}

} // verus!
