//! A link set that no binding names is a draft: it changes nothing about the plan it stands in.
use vstd::prelude::*;
use vstd::string::*;
use crate::config::ConfigView;
use crate::model::{RunRequest, UiBinding, UiLinkSet, UiPairRef, UiPlan, UiState, UiSuite};
use crate::readings::Readings;
use crate::suite_plan::{
    binding_tests, bound_pairs, bound_tests_to, lemma_run_order_to, pair_task_tests_to,
    plan_tests_to, run_order, task_order,
};
use crate::text::blank;
use crate::validate_plan::{
    binding_told, bindings_told, link_repeats, link_sets_told, pair_ids, pair_refs_told,
    pair_topology_told, plan_recipes_told, plan_told, referenced, same_link, set_ids, set_index,
    suite_index, suites_told, task_told, tasks_told,
};

verus! {

/// Whether the pairs of a link set are well formed: each has an id of its own, and two ends that
/// differ. Whether the ends are there does not matter.
pub open spec fn pairs_well_formed(set: UiLinkSet) -> bool {
    forall|i: int|
        0 <= i < set.pair_refs@.len() ==> {
            let pair = #[trigger] set.pair_refs@[i];
            &&& !blank(pair.id@)
            &&& !pair_ids(set.pair_refs@).take(i).contains(pair.id@)
            &&& !blank(pair.src@)
            &&& !blank(pair.dst@)
            &&& pair.src@ != pair.dst@
        }
}

/// Whether no binding of a plan names a link set.
pub open spec fn unbound(plan: UiPlan, set: UiLinkSet) -> bool {
    forall|b: int|
        0 <= b < plan.bindings@.len() ==> (#[trigger] plan.bindings@[b]).link_set_id@ != set.id@
}

/// Whether a plan is another one with a link set added behind the others.
pub open spec fn adds_set(plan: UiPlan, set: UiLinkSet, larger: UiPlan) -> bool {
    &&& larger.ui_plan_version == plan.ui_plan_version
    &&& larger.link_sets@ == plan.link_sets@.push(set)
    &&& larger.recipes == plan.recipes
    &&& larger.suites == plan.suites
    &&& larger.bindings == plan.bindings
}

proof fn lemma_topology_same(
    state: UiState,
    rd: Readings,
    plan: UiPlan,
    larger: UiPlan,
    set: UiLinkSet,
    i: int,
)
    requires
        larger.bindings == plan.bindings,
    ensures
        pair_topology_told(state, rd, larger, set, i) == pair_topology_told(
            state,
            rd,
            plan,
            set,
            i,
        ),
{
    assert forall|id: Seq<char>, pair: Seq<char>| #[trigger]
        referenced(larger, id, pair) == referenced(plan, id, pair) by {}
    assert(link_repeats(rd, larger, set, i) == link_repeats(rd, plan, set, i)) by {
        if link_repeats(rd, plan, set, i) {
            let j = choose|j: int|
                0 <= j < i && referenced(plan, set.id@, (#[trigger] set.pair_refs@[j]).id@)
                    && same_link(rd, set.pair_refs@[j], set.pair_refs@[i]);
            assert(referenced(larger, set.id@, set.pair_refs@[j].id@));
        }
        if link_repeats(rd, larger, set, i) {
            let j = choose|j: int|
                0 <= j < i && referenced(larger, set.id@, (#[trigger] set.pair_refs@[j]).id@)
                    && same_link(rd, set.pair_refs@[j], set.pair_refs@[i]);
            assert(referenced(plan, set.id@, set.pair_refs@[j].id@));
        }
    }
}

proof fn lemma_pairs_same(
    state: UiState,
    rd: Readings,
    plan: UiPlan,
    larger: UiPlan,
    set: UiLinkSet,
    i: int,
)
    requires
        larger.bindings == plan.bindings,
    ensures
        pair_refs_told(state, rd, larger, set, i) == pair_refs_told(state, rd, plan, set, i),
    decreases set.pair_refs@.len() - i,
{
    if 0 <= i < set.pair_refs@.len() {
        lemma_pairs_same(state, rd, plan, larger, set, i + 1);
        lemma_topology_same(state, rd, plan, larger, set, i);
    }
}

/// A link set that no binding names and whose pairs are well formed draws no complaint.
proof fn lemma_draft_passes(state: UiState, rd: Readings, plan: UiPlan, set: UiLinkSet, i: int)
    requires
        unbound(plan, set),
        pairs_well_formed(set),
        0 <= i,
    ensures
        pair_refs_told(state, rd, plan, set, i) is Ok,
    decreases set.pair_refs@.len() - i,
{
    if i < set.pair_refs@.len() {
        lemma_draft_passes(state, rd, plan, set, i + 1);
        let pair = set.pair_refs@[i];
        assert(!referenced(plan, set.id@, pair.id@));
    }
}

proof fn lemma_sets_same(
    state: UiState,
    rd: Readings,
    plan: UiPlan,
    set: UiLinkSet,
    larger: UiPlan,
    i: int,
)
    requires
        adds_set(plan, set, larger),
        unbound(plan, set),
        pairs_well_formed(set),
        !blank(set.id@),
        !set_ids(plan.link_sets@).contains(set.id@),
        0 <= i <= plan.link_sets@.len(),
    ensures
        link_sets_told(state, rd, larger, i) == link_sets_told(state, rd, plan, i),
    decreases plan.link_sets@.len() - i,
{
    let n = plan.link_sets@.len() as int;
    assert(set_ids(larger.link_sets@).take(i) =~= set_ids(plan.link_sets@).take(i));
    if i < n {
        assert(larger.link_sets@[i] == plan.link_sets@[i]);
        lemma_pairs_same(state, rd, plan, larger, plan.link_sets@[i], 0);
        lemma_sets_same(state, rd, plan, set, larger, i + 1);
    } else {
        assert(larger.link_sets@[n] == set);
        assert(set_ids(plan.link_sets@).take(n) =~= set_ids(plan.link_sets@));
        lemma_draft_passes(state, rd, larger, set, 0);
        assert(link_sets_told(state, rd, larger, n + 1) is Ok);
    }
}

proof fn lemma_tasks_same(rd: Readings, plan: UiPlan, larger: UiPlan, suite: UiSuite, i: int)
    requires
        larger.recipes == plan.recipes,
    ensures
        tasks_told(rd, larger, suite, i) == tasks_told(rd, plan, suite, i),
    decreases suite.tasks@.len() - i,
{
    if 0 <= i < suite.tasks@.len() {
        lemma_tasks_same(rd, plan, larger, suite, i + 1);
        assert(task_told(rd, larger, suite, suite.tasks@[i]) == task_told(
            rd,
            plan,
            suite,
            suite.tasks@[i],
        ));
    }
}

proof fn lemma_suites_same(rd: Readings, plan: UiPlan, larger: UiPlan, i: int)
    requires
        larger.recipes == plan.recipes,
        larger.suites == plan.suites,
    ensures
        suites_told(rd, larger, i) == suites_told(rd, plan, i),
    decreases plan.suites@.len() - i,
{
    if 0 <= i < plan.suites@.len() {
        lemma_suites_same(rd, plan, larger, i + 1);
        lemma_tasks_same(rd, plan, larger, plan.suites@[i], 0);
    }
}

/// A set behind the others is found only by its own id.
proof fn lemma_index_same(sets: Seq<UiLinkSet>, set: UiLinkSet, id: Seq<char>, i: int)
    requires
        set.id@ != id,
        0 <= i <= sets.len(),
    ensures
        set_index(sets, id, i) < sets.len() ==> set_index(sets.push(set), id, i) == set_index(
            sets,
            id,
            i,
        ),
        set_index(sets, id, i) >= sets.len() ==> set_index(sets.push(set), id, i) == sets.len() + 1,
        0 <= set_index(sets, id, i) <= sets.len(),
    decreases sets.len() - i,
{
    let all = sets.push(set);
    if i < sets.len() {
        assert(all[i] == sets[i]);
        lemma_index_same(sets, set, id, i + 1);
    } else {
        assert(all[i] == set);
        assert(set_index(all, id, i + 1) == all.len());
    }
}

proof fn lemma_binding_same(plan: UiPlan, set: UiLinkSet, larger: UiPlan, binding: UiBinding)
    requires
        adds_set(plan, set, larger),
        binding.link_set_id@ != set.id@,
    ensures
        binding_told(larger, binding) == binding_told(plan, binding),
{
    let sets = plan.link_sets@;
    lemma_index_same(sets, set, binding.link_set_id@, 0);
    let at = set_index(sets, binding.link_set_id@, 0);
    if at < sets.len() {
        assert(larger.link_sets@[at] == sets[at]);
    }
}

proof fn lemma_bindings_same(plan: UiPlan, set: UiLinkSet, larger: UiPlan, i: int)
    requires
        adds_set(plan, set, larger),
        unbound(plan, set),
    ensures
        bindings_told(larger, i) == bindings_told(plan, i),
    decreases plan.bindings@.len() - i,
{
    if 0 <= i < plan.bindings@.len() {
        lemma_bindings_same(plan, set, larger, i + 1);
        lemma_binding_same(plan, set, larger, plan.bindings@[i]);
    }
}

/// A further link set with an id of its own that no binding names changes no verdict on a plan,
/// whatever ends its pairs name, and also where it has none.
pub proof fn lemma_drafts_change_nothing(
    state: UiState,
    rd: Readings,
    plan: UiPlan,
    set: UiLinkSet,
    larger: UiPlan,
)
    requires
        plan.link_sets@.len() > 0,
        adds_set(plan, set, larger),
        !blank(set.id@),
        !set_ids(plan.link_sets@).contains(set.id@),
        unbound(plan, set),
        pairs_well_formed(set),
    ensures
        plan_told(state, rd, larger) == plan_told(state, rd, plan),
{
    lemma_sets_same(state, rd, plan, set, larger, 0);
    lemma_suites_same(rd, plan, larger, 0);
    lemma_bindings_same(plan, set, larger, 0);
    assert(plan_recipes_told(rd, larger) == plan_recipes_told(rd, plan));
}

// ---------------------------------------------------------------------------
// Tests
// ---------------------------------------------------------------------------

proof fn lemma_pair_tests_same(
    rd: Readings,
    plan: UiPlan,
    larger: UiPlan,
    req: RunRequest,
    cfg: ConfigView,
    binding: UiBinding,
    set: UiLinkSet,
    suite: UiSuite,
    pair: UiPairRef,
    n: int,
)
    requires
        larger.recipes == plan.recipes,
    ensures
        pair_task_tests_to(rd, larger, req, cfg, binding, set, suite, pair, n)
            == pair_task_tests_to(rd, plan, req, cfg, binding, set, suite, pair, n),
    decreases n,
{
    if n > 0 {
        lemma_pair_tests_same(rd, plan, larger, req, cfg, binding, set, suite, pair, n - 1);
    }
}

proof fn lemma_bound_tests_same(
    rd: Readings,
    plan: UiPlan,
    larger: UiPlan,
    req: RunRequest,
    cfg: ConfigView,
    binding: UiBinding,
    set: UiLinkSet,
    suite: UiSuite,
    n: int,
)
    requires
        larger.recipes == plan.recipes,
    ensures
        bound_tests_to(rd, larger, req, cfg, binding, set, suite, n) == bound_tests_to(
            rd,
            plan,
            req,
            cfg,
            binding,
            set,
            suite,
            n,
        ),
    decreases n,
{
    if n > 0 {
        lemma_bound_tests_same(rd, plan, larger, req, cfg, binding, set, suite, n - 1);
        let pair = set.pair_refs@[bound_pairs(binding, set)[n - 1] as int];
        let tasks = task_order(suite).len() as int;
        lemma_pair_tests_same(rd, plan, larger, req, cfg, binding, set, suite, pair, tasks);
    }
}

proof fn lemma_binding_tests_same(
    rd: Readings,
    plan: UiPlan,
    set: UiLinkSet,
    larger: UiPlan,
    req: RunRequest,
    cfg: ConfigView,
    binding: UiBinding,
)
    requires
        adds_set(plan, set, larger),
        binding.link_set_id@ != set.id@,
    ensures
        binding_tests(rd, larger, req, cfg, binding) == binding_tests(rd, plan, req, cfg, binding),
{
    let sets = plan.link_sets@;
    lemma_index_same(sets, set, binding.link_set_id@, 0);
    let at = set_index(sets, binding.link_set_id@, 0);
    let suite_at = suite_index(plan.suites@, binding.suite_id@, 0);
    if at < sets.len() && suite_at < plan.suites@.len() {
        let own = sets[at];
        assert(larger.link_sets@[at] == own);
        let pairs = bound_pairs(binding, own).len() as int;
        lemma_bound_tests_same(
            rd,
            plan,
            larger,
            req,
            cfg,
            binding,
            own,
            plan.suites@[suite_at],
            pairs,
        );
    }
}

/// A further link set that no binding names adds no test to those of a plan and takes none away.
pub proof fn lemma_drafts_add_no_tests(
    rd: Readings,
    plan: UiPlan,
    set: UiLinkSet,
    larger: UiPlan,
    req: RunRequest,
    cfg: ConfigView,
    n: int,
)
    requires
        adds_set(plan, set, larger),
        unbound(plan, set),
        0 <= n <= plan.bindings@.len(),
    ensures
        plan_tests_to(rd, larger, req, cfg, n) == plan_tests_to(rd, plan, req, cfg, n),
    decreases n,
{
    if n > 0 {
        lemma_drafts_add_no_tests(rd, plan, set, larger, req, cfg, n - 1);
        assert(plan.bindings@.len() == plan.bindings.len());
        lemma_run_order_to(plan.bindings@, plan.bindings@.len() as int);
        let at = run_order(plan.bindings@)[n - 1] as int;
        assert(0 <= at < plan.bindings@.len());
        lemma_binding_tests_same(rd, plan, set, larger, req, cfg, plan.bindings@[at]);
    }
}

} // verus!
