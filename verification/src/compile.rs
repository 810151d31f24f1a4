//! From built units to the plan that a preview shows and a run is held to.
use vstd::prelude::*;
use vstd::string::*;
use crate::config::{Config, ConfigView, TestSpec};
use crate::model::{RunRequest, UiState};
use crate::readings::{Endpoint, Readings};
use crate::suite::same_opt;
use crate::suite_plan::{request_config, validated_config_from_request, validated_told};
use crate::text::{
    alike, ascii_lower, begins, blank, cat2, cat3, cat4, cat5, contains, copy_opt_text, copy_texts,
    decimal, decimal_text, group_views, has, is_alike, is_blank, join, joined, lists, lowered,
    opt_text, opt_view, owned, pieces, same, split, starts_with, texts, told, trim_start,
    trimmed_start, views,
};
use crate::units::{
    effective_args_to, leg_protocol, load_lines_to, target_lines, unit_direction,
    unit_direction_for_spec, unit_effective_args, unit_load_lines, unit_protocol, unit_target_lines,
    Leg, Unit,
};
use crate::url::{url_decoded, urldecode};

verus! {

/// Which part of a suite plan a unit comes from.
#[derive(Debug)]
pub struct UiSource {
    pub pair_id: String,
    pub link_set_id: String,
    pub suite_id: String,
    pub task_id: String,
    pub recipe_id: String,
    pub protocol: String,
}

/// What a [`UiSource`] holds.
pub ghost struct UiSourceView {
    pub pair_id: Seq<char>,
    pub link_set_id: Seq<char>,
    pub suite_id: Seq<char>,
    pub task_id: Seq<char>,
    pub recipe_id: Seq<char>,
    pub protocol: Seq<char>,
}

impl View for UiSource {
    type V = UiSourceView;

    open spec fn view(&self) -> UiSourceView {
        UiSourceView {
            pair_id: self.pair_id@,
            link_set_id: self.link_set_id@,
            suite_id: self.suite_id@,
            task_id: self.task_id@,
            recipe_id: self.recipe_id@,
            protocol: self.protocol@,
        }
    }
}

impl Clone for UiSource {
    fn clone(&self) -> (r: UiSource)
        ensures
            r@ == self@,
    {
        UiSource {
            pair_id: self.pair_id.clone(),
            link_set_id: self.link_set_id.clone(),
            suite_id: self.suite_id.clone(),
            task_id: self.task_id.clone(),
            recipe_id: self.recipe_id.clone(),
            protocol: self.protocol.clone(),
        }
    }
}

/// A copy of an optional value.
pub fn copy_opt_ui_source(v: &Option<UiSource>) -> (r: Option<UiSource>)
    ensures
        opt_view(r) == opt_view(*v),
{
    match v {
        Some(x) => Some(x.clone()),
        None => None,
    }
}

/// One unit traced back to the plan.
#[derive(Debug)]
pub struct PlanTrace {
    pub seq: usize,
    pub pair_id: Option<String>,
    pub link_set_id: Option<String>,
    pub suite_id: Option<String>,
    pub task_id: Option<String>,
    pub lane_id: Option<String>,
    pub recipe_id: Option<String>,
    pub protocol: Option<String>,
    pub direction: Option<String>,
    pub ip: Option<String>,
    pub requested_args: Vec<String>,
    pub effective_args: Vec<String>,
    pub value_sources: Vec<String>,
    pub skipped_reason: Option<String>,
    pub resumed: bool,
}

/// What a [`PlanTrace`] holds.
pub ghost struct PlanTraceView {
    pub seq: usize,
    pub pair_id: Option<Seq<char>>,
    pub link_set_id: Option<Seq<char>>,
    pub suite_id: Option<Seq<char>>,
    pub task_id: Option<Seq<char>>,
    pub lane_id: Option<Seq<char>>,
    pub recipe_id: Option<Seq<char>>,
    pub protocol: Option<Seq<char>>,
    pub direction: Option<Seq<char>>,
    pub ip: Option<Seq<char>>,
    pub requested_args: Seq<Seq<char>>,
    pub effective_args: Seq<Seq<char>>,
    pub value_sources: Seq<Seq<char>>,
    pub skipped_reason: Option<Seq<char>>,
    pub resumed: bool,
}

impl View for PlanTrace {
    type V = PlanTraceView;

    open spec fn view(&self) -> PlanTraceView {
        PlanTraceView {
            seq: self.seq,
            pair_id: opt_text(self.pair_id),
            link_set_id: opt_text(self.link_set_id),
            suite_id: opt_text(self.suite_id),
            task_id: opt_text(self.task_id),
            lane_id: opt_text(self.lane_id),
            recipe_id: opt_text(self.recipe_id),
            protocol: opt_text(self.protocol),
            direction: opt_text(self.direction),
            ip: opt_text(self.ip),
            requested_args: views(self.requested_args@),
            effective_args: views(self.effective_args@),
            value_sources: views(self.value_sources@),
            skipped_reason: opt_text(self.skipped_reason),
            resumed: self.resumed,
        }
    }
}

/// The units of one task on one link set.
#[derive(Debug)]
pub struct PlanSection {
    pub link_set_id: Option<String>,
    pub suite_id: Option<String>,
    pub task_id: Option<String>,
    pub title: String,
    pub unit_seqs: Vec<usize>,
}

/// What a [`PlanSection`] holds.
pub ghost struct PlanSectionView {
    pub link_set_id: Option<Seq<char>>,
    pub suite_id: Option<Seq<char>>,
    pub task_id: Option<Seq<char>>,
    pub title: Seq<char>,
    pub unit_seqs: Seq<usize>,
}

impl View for PlanSection {
    type V = PlanSectionView;

    open spec fn view(&self) -> PlanSectionView {
        PlanSectionView {
            link_set_id: opt_text(self.link_set_id),
            suite_id: opt_text(self.suite_id),
            task_id: opt_text(self.task_id),
            title: self.title@,
            unit_seqs: self.unit_seqs@,
        }
    }
}

// ---------------------------------------------------------------------------
// Where a test comes from
// ---------------------------------------------------------------------------

/// Whether a list holds a text that differs from `text` at most in case.
pub open spec fn holds_alike(list: Seq<String>, text: Seq<char>) -> bool {
    exists|i: int| 0 <= i < list.len() && alike((#[trigger] list[i])@, text)
}

/// Whether a list holds a text that differs from `text` at most in case.
pub fn does_hold_alike(list: &Vec<String>, text: &str) -> (r: bool)
    ensures
        r == holds_alike(list@, text@),
{
    let mut i: usize = 0;
    while i < list.len()
        invariant
            i <= list@.len(),
            forall|k: int| 0 <= k < i ==> !alike((#[trigger] list@[k])@, text@),
        decreases list@.len() - i,
    {
        if is_alike(list[i].as_str(), text) {
            return true;
        }
        i += 1;
    }
    false
}

/// The protocol of a test: ping where it is of that kind, else its first transport.
pub open spec fn protocol_of(test: TestSpec) -> Option<Seq<char>> {
    if holds_alike(test.kinds@, "ping"@) {
        Some("ping"@)
    } else if test.transports@.len() > 0 {
        Some(lowered(test.transports@[0]@))
    } else {
        None
    }
}

/// The protocol of a test: ping where it is of that kind, else its first transport.
pub fn spec_protocol(test: &TestSpec) -> (r: Option<String>)
    ensures
        opt_view(r) == protocol_of(*test),
{
    if does_hold_alike(&test.kinds, "ping") {
        Some(owned("ping"))
    } else if test.transports.len() > 0 {
        Some(ascii_lower(test.transports[0].as_str()))
    } else {
        None
    }
}

/// The part of a plan that a test name of the older form spells out:
/// `ui-plan/set/binding/pair/suite/task/recipe/protocol-...`, each part percent-encoded.
pub open spec fn source_in_name(name: Seq<char>) -> Option<UiSourceView> {
    let parts = pieces(name, '/');
    if parts.len() >= 8 && parts[0] == "ui-plan"@ {
        Some(
            UiSourceView {
                pair_id: url_decoded(parts[3]),
                link_set_id: url_decoded(parts[1]),
                suite_id: url_decoded(parts[4]),
                task_id: url_decoded(parts[5]),
                recipe_id: url_decoded(parts[6]),
                protocol: pieces(parts[7], '-')[0],
            },
        )
    } else {
        None
    }
}

/// Splitting gives at least one part.
proof fn lemma_pieces_nonempty(s: Seq<char>, c: char)
    ensures
        pieces(s, c).len() > 0,
{
}

/// The part of a plan that a test name of the older form spells out.
pub fn ui_source_from_test_name(name: &str) -> (r: Option<UiSource>)
    ensures
        opt_view(r) == source_in_name(name@),
{
    let parts = split(name, '/');
    let ghost list = texts(parts@);
    assert(list.len() == parts@.len());
    if parts.len() < 8 {
        return None;
    }
    assert(forall|i: int| 0 <= i < parts@.len() ==> list[i] == parts@[i]@);
    if !same(parts[0].as_str(), "ui-plan") {
        return None;
    }
    let tail = split(parts[7].as_str(), '-');
    proof {
        lemma_pieces_nonempty(parts@[7]@, '-');
        assert(texts(tail@).len() == tail@.len());
        assert(texts(tail@)[0] == tail@[0]@);
    }
    Some(
        UiSource {
            pair_id: urldecode(parts[3].as_str()),
            link_set_id: urldecode(parts[1].as_str()),
            suite_id: urldecode(parts[4].as_str()),
            task_id: urldecode(parts[5].as_str()),
            recipe_id: urldecode(parts[6].as_str()),
            protocol: tail[0].clone(),
        },
    )
}

/// The part of a plan that a test comes from: as recorded with it, or as its name spells it out.
pub open spec fn source_of(test: TestSpec) -> Option<UiSourceView> {
    if test.origin is Some && !test.origin->0@.vacant() {
        let origin = test.origin->0@;
        Some(
            UiSourceView {
                pair_id: origin.pair_id,
                link_set_id: origin.link_set_id,
                suite_id: origin.suite_id,
                task_id: origin.task_id,
                recipe_id: origin.recipe_id,
                protocol: match protocol_of(test) {
                    Some(protocol) => protocol,
                    None => Seq::empty(),
                },
            },
        )
    } else {
        source_in_name(test.name@)
    }
}

/// The part of a plan that a test comes from.
pub fn ui_source_from_spec(test: &TestSpec) -> (r: Option<UiSource>)
    ensures
        opt_view(r) == source_of(*test),
{
    if let Some(origin) = &test.origin {
        if !origin.is_empty() {
            let protocol = match spec_protocol(test) {
                Some(protocol) => protocol,
                None => String::new(),
            };
            return Some(
                UiSource {
                    pair_id: origin.pair_id.clone(),
                    link_set_id: origin.link_set_id.clone(),
                    suite_id: origin.suite_id.clone(),
                    task_id: origin.task_id.clone(),
                    recipe_id: origin.recipe_id.clone(),
                    protocol,
                },
            );
        }
    }
    ui_source_from_test_name(test.name.as_str())
}

// ---------------------------------------------------------------------------
// Built units
// ---------------------------------------------------------------------------

/// What building one test gave: its ends and its units.
#[derive(Debug)]
pub struct BuiltTest {
    pub src: Endpoint,
    pub dst: Endpoint,
    pub units: Vec<Unit>,
    pub notices: Vec<String>,
}

/// A unit with what is known of where it comes from.
#[derive(Debug)]
pub struct PlacedUnit {
    pub unit: Unit,
    pub source: Option<UiSource>,
    pub direction: Option<String>,
}

/// A unit with what is known of where it comes from.
pub ghost struct PlacedUnitView {
    pub unit: Unit,
    pub source: Option<UiSourceView>,
    pub direction: Option<Seq<char>>,
}

impl View for PlacedUnit {
    type V = PlacedUnitView;

    open spec fn view(&self) -> PlacedUnitView {
        PlacedUnitView {
            unit: self.unit,
            source: opt_view(self.source),
            direction: opt_text(self.direction),
        }
    }
}

/// The units of one test, placed.
pub open spec fn placed_units(test: TestSpec, built: BuiltTest) -> Seq<PlacedUnitView> {
    Seq::new(
        built.units@.len(),
        |i: int|
            PlacedUnitView {
                unit: built.units@[i],
                source: source_of(test),
                direction: unit_direction(built.units@[i], built.src, built.dst),
            },
    )
}

/// The units of the first `n` tests of a suite plan, placed.
pub open spec fn placed_to(
    tests: Seq<TestSpec>,
    built: Seq<Result<BuiltTest, String>>,
    n: int,
) -> Seq<PlacedUnitView>
    decreases n,
{
    if n <= 0 {
        Seq::empty()
    } else {
        match built[n - 1] {
            Ok(b) => placed_to(tests, built, n - 1) + placed_units(tests[n - 1], b),
            Err(_) => placed_to(tests, built, n - 1),
        }
    }
}

/// What a preview says of the first `n` tests of a suite plan.
pub open spec fn build_notices_to(
    tests: Seq<TestSpec>,
    built: Seq<Result<BuiltTest, String>>,
    n: int,
) -> Seq<Seq<char>>
    decreases n,
{
    if n <= 0 {
        Seq::empty()
    } else {
        match built[n - 1] {
            Ok(b) => build_notices_to(tests, built, n - 1) + texts(b.notices@),
            Err(e) => build_notices_to(tests, built, n - 1).push(
                "跳过 "@ + tests[n - 1].name@ + ": "@ + e@,
            ),
        }
    }
}

/// The tests among the first `n` that could not be built, and why.
pub open spec fn build_errors_to<T>(
    tests: Seq<TestSpec>,
    built: Seq<Result<T, String>>,
    n: int,
) -> Seq<Seq<char>>
    decreases n,
{
    if n <= 0 {
        Seq::empty()
    } else {
        match built[n - 1] {
            Ok(_) => build_errors_to(tests, built, n - 1),
            Err(e) => build_errors_to(tests, built, n - 1).push(
                tests[n - 1].name@ + " 无法生成任务："@ + e@,
            ),
        }
    }
}

/// Places the units of one test behind those already placed.
pub fn place_units(out: &mut Vec<PlacedUnit>, test: &TestSpec, built: BuiltTest)
    ensures
        views(final(out)@) == views(old(out)@) + placed_units(*test, built),
{
    broadcast use group_views;

    let source = ui_source_from_spec(test);
    let ghost before = views(out@);
    let ghost all = placed_units(*test, built);
    let src = built.src;
    let dst = built.dst;
    let units = built.units;
    assert(before + all.take(0) =~= before);
    for unit in it: units
        invariant
            it.seq() == units@,
            opt_view(source) == source_of(*test),
            all.len() == units@.len(),
            forall|k: int|
                0 <= k < units@.len() ==> #[trigger] all[k] == (PlacedUnitView {
                    unit: units@[k],
                    source: source_of(*test),
                    direction: unit_direction(units@[k], src, dst),
                }),
            views(out@) == before + all.take(it.index@ as int),
    {
        let ghost i = it.index@ as int;
        let direction = unit_direction_for_spec(&unit, &src, &dst);
        let placed = PlacedUnit { unit, source: copy_opt_ui_source(&source), direction };
        assert(placed@ == all[i]);
        out.push(placed);
        assert((before + all.take(i)).push(all[i]) =~= before + all.take(i + 1));
    }
    assert(all.take(all.len() as int) =~= all);
}

// ---------------------------------------------------------------------------
// Repeated units
// ---------------------------------------------------------------------------

/// Whether an earlier unit has the id of the `i`th.
pub open spec fn unit_repeats(units: Seq<PlacedUnitView>, i: int) -> bool {
    exists|j: int| 0 <= j < i && (#[trigger] units[j]).unit.id@ == units[i].unit.id@
}

/// The first `n` units, each id kept only where it first occurs.
pub open spec fn kept_to(units: Seq<PlacedUnitView>, n: int) -> Seq<PlacedUnitView>
    decreases n,
{
    if n <= 0 {
        Seq::empty()
    } else if unit_repeats(units, n - 1) {
        kept_to(units, n - 1)
    } else {
        kept_to(units, n - 1).push(units[n - 1])
    }
}

/// The units, each id kept only where it first occurs.
pub open spec fn kept(units: Seq<PlacedUnitView>) -> Seq<PlacedUnitView> {
    kept_to(units, units.len() as int)
}

proof fn lemma_kept_to(units: Seq<PlacedUnitView>, n: int)
    requires
        0 <= n <= units.len(),
    ensures
        kept_to(units, n).len() <= n,
        forall|i: int|
            0 <= i < kept_to(units, n).len() ==> exists|k: int|
                0 <= k < n && units[k] == #[trigger] kept_to(units, n)[i],
        forall|i: int, j: int|
            0 <= i < j < kept_to(units, n).len() ==> (#[trigger] kept_to(units, n)[i]).unit.id@ != (
            #[trigger] kept_to(units, n)[j]).unit.id@,
        forall|k: int|
            0 <= k < n ==> exists|i: int|
                0 <= i < kept_to(units, n).len() && kept_to(units, n)[i].unit.id@ == (
                #[trigger] units[k]).unit.id@,
    decreases n,
{
    if n > 0 {
        lemma_kept_to(units, n - 1);
        let before = kept_to(units, n - 1);
        let after = kept_to(units, n);
        let last = units[n - 1];
        assert forall|i: int| 0 <= i < after.len() implies exists|k: int|
            0 <= k < n && units[k] == #[trigger] after[i] by {
            if i < before.len() {
                assert(after[i] == before[i]);
            } else {
                assert(units[n - 1] == after[i]);
            }
        }
        assert forall|i: int, j: int| 0 <= i < j < after.len() implies (
        #[trigger] after[i]).unit.id@ != (#[trigger] after[j]).unit.id@ by {
            assert(after[i] == before[i]);
            if j < before.len() {
                assert(after[j] == before[j]);
            } else {
                let k = choose|k: int| 0 <= k < n - 1 && units[k] == before[i];
                assert(units[k].unit.id@ == before[i].unit.id@);
            }
        }
        assert forall|k: int| 0 <= k < n implies exists|i: int|
            0 <= i < after.len() && after[i].unit.id@ == (#[trigger] units[k]).unit.id@ by {
            if k < n - 1 {
                let i = choose|i: int|
                    0 <= i < before.len() && before[i].unit.id@ == units[k].unit.id@;
                assert(after[i] == before[i]);
            } else if unit_repeats(units, n - 1) {
                let j = choose|j: int|
                    0 <= j < n - 1 && (#[trigger] units[j]).unit.id@ == last.unit.id@;
                let i = choose|i: int|
                    0 <= i < before.len() && before[i].unit.id@ == units[j].unit.id@;
                assert(after[i] == before[i]);
            } else {
                assert(after[before.len() as int] == last);
            }
        }
    }
}

/// A plan runs each unit id once, runs nothing that was not built, and runs every id that was.
pub proof fn lemma_units_run_once(units: Seq<PlacedUnitView>)
    ensures
        forall|i: int|
            0 <= i < kept(units).len() ==> exists|k: int|
                0 <= k < units.len() && units[k] == #[trigger] kept(units)[i],
        forall|i: int, j: int|
            0 <= i < j < kept(units).len() ==> (#[trigger] kept(units)[i]).unit.id@ != (
            #[trigger] kept(units)[j]).unit.id@,
        forall|k: int|
            0 <= k < units.len() ==> exists|i: int|
                0 <= i < kept(units).len() && kept(units)[i].unit.id@ == (
                #[trigger] units[k]).unit.id@,
{
    lemma_kept_to(units, units.len() as int);
}

/// Keeps each unit id only where it first occurs.
pub fn keep_first_units(units: Vec<PlacedUnit>) -> (r: Vec<PlacedUnit>)
    ensures
        views(r@) == kept(views(units@)),
{
    broadcast use group_views;

    let ghost all = views(units@);
    let mut ids: Vec<String> = Vec::new();
    let mut r: Vec<PlacedUnit> = Vec::new();
    let ghost all_ids = Seq::new(all.len(), |i: int| all[i].unit.id@);
    for placed in it: units
        invariant
            it.seq() == units@,
            all == views(units@),
            all.len() == units@.len(),
            all_ids == Seq::new(all.len(), |i: int| all[i].unit.id@),
            texts(ids@) == all_ids.take(it.index@ as int),
            views(r@) == kept_to(all, it.index@ as int),
    {
        let ghost i = it.index@ as int;
        assert(placed@ == all[i]);
        let id = placed.unit.id.clone();
        assert(id@ == all_ids[i]);
        let seen = lists(&ids, id.as_str());
        proof {
            assert(seen == unit_repeats(all, i)) by {
                if seen {
                    let head = all_ids.take(i);
                    let j = choose|j: int| 0 <= j < head.len() && head[j] == id@;
                    assert(all[j].unit.id@ == id@);
                }
                if unit_repeats(all, i) {
                    let j = choose|j: int|
                        0 <= j < i && (#[trigger] all[j]).unit.id@ == all[i].unit.id@;
                    assert(all_ids.take(i)[j] == id@);
                }
            }
            assert(all_ids.take(i).push(all_ids[i]) =~= all_ids.take(i + 1));
        }
        if !seen {
            r.push(placed);
        }
        ids.push(id);
    }
    r
}

// ---------------------------------------------------------------------------
// Traces and sections
// ---------------------------------------------------------------------------

/// The directions of the legs of the first `n` legs, as far as a unit itself tells.
pub open spec fn leg_tags(legs: Seq<Leg>) -> Seq<Seq<char>> {
    Seq::new(
        legs.len(),
        |i: int|
            if legs[i].tag@.len() == 0 {
                "ab"@
            } else {
                legs[i].tag@
            },
    )
}

/// The directions of the legs, as far as a unit itself tells.
pub fn tags_of_legs(legs: &Vec<Leg>) -> (r: Vec<String>)
    ensures
        texts(r@) == leg_tags(legs@),
{
    broadcast use group_views;

    let ghost all = leg_tags(legs@);
    let mut r: Vec<String> = Vec::new();
    let mut i: usize = 0;
    while i < legs.len()
        invariant
            i <= legs@.len(),
            all == leg_tags(legs@),
            texts(r@) == all.take(i as int),
        decreases legs@.len() - i,
    {
        let tag = if legs[i].tag.as_str().is_empty() {
            owned("ab")
        } else {
            legs[i].tag.clone()
        };
        assert(tag@ == all[i as int]);
        r.push(tag);
        assert(all.take(i as int).push(all[i as int]) =~= all.take(i + 1));
        i += 1;
    }
    assert(all.take(i as int) =~= all);
    r
}

/// The direction of a unit in its trace.
pub open spec fn trace_direction(placed: PlacedUnitView) -> Option<Seq<char>> {
    if placed.direction is Some {
        placed.direction
    } else if placed.unit.legs@.len() > 0 {
        Some(joined(leg_tags(placed.unit.legs@), ","@))
    } else {
        None
    }
}

/// The protocol of a unit in its trace: that of the test it comes from, or its own.
pub open spec fn trace_protocol(placed: PlacedUnitView) -> Option<Seq<char>> {
    if placed.source is Some && placed.source->0.protocol.len() > 0 {
        Some(placed.source->0.protocol)
    } else if placed.unit.legs@.len() > 0 {
        Some(leg_protocol(placed.unit.legs@[0]))
    } else {
        None
    }
}

/// The IP version that the title of a unit names.
pub open spec fn title_version(title: Seq<char>) -> Option<Seq<char>> {
    if has(title, " V6 "@) {
        Some("v6"@)
    } else if has(title, " V4 "@) {
        Some("v4"@)
    } else {
        None
    }
}

/// What the trace of a suite plan says of where values come from.
pub const SUITE_VALUES: &'static str = "suite recipe（网口策略/链路裁剪由 builder 最终决定）";

/// The trace of the `index`th unit, counted from zero.
pub open spec fn trace_of(placed: PlacedUnitView, index: int, resumed: bool) -> PlanTraceView {
    let source = placed.source;
    let args = effective_args_to(placed.unit, placed.unit.legs@.len() as int);
    let task_id = match source {
        Some(s) => Some(s.task_id),
        None => None,
    };
    PlanTraceView {
        seq: (index + 1) as usize,
        pair_id: match source {
            Some(s) => Some(s.pair_id),
            None => None,
        },
        link_set_id: match source {
            Some(s) => if s.link_set_id.len() > 0 {
                Some(s.link_set_id)
            } else {
                None
            },
            None => None,
        },
        suite_id: match source {
            Some(s) => Some(s.suite_id),
            None => None,
        },
        task_id,
        lane_id: task_id,
        recipe_id: match source {
            Some(s) => Some(s.recipe_id),
            None => None,
        },
        protocol: trace_protocol(placed),
        direction: trace_direction(placed),
        ip: title_version(placed.unit.title@),
        requested_args: args,
        effective_args: args,
        value_sources: seq![SUITE_VALUES@],
        skipped_reason: None,
        resumed,
    }
}

/// The trace of the `index`th unit, counted from zero.
pub fn trace_unit(placed: &PlacedUnit, index: usize, resumed: bool) -> (r: PlanTrace)
    requires
        index < usize::MAX,
    ensures
        r@ == trace_of(placed@, index as int, resumed),
{
    broadcast use group_views;

    let (pair_id, link_set_id, suite_id, task_id, recipe_id): (
        Option<String>,
        Option<String>,
        Option<String>,
        Option<String>,
        Option<String>,
    ) = match &placed.source {
        Some(s) => (
            Some(s.pair_id.clone()),
            if s.link_set_id.as_str().is_empty() {
                None
            } else {
                Some(s.link_set_id.clone())
            },
            Some(s.suite_id.clone()),
            Some(s.task_id.clone()),
            Some(s.recipe_id.clone()),
        ),
        None => (None, None, None, None, None),
    };
    let own = match &placed.source {
        Some(s) => if s.protocol.as_str().is_empty() {
            None
        } else {
            Some(s.protocol.clone())
        },
        None => None,
    };
    let protocol = if own.is_some() {
        own
    } else {
        unit_protocol(&placed.unit)
    };
    let direction = if placed.direction.is_some() {
        copy_opt_text(&placed.direction)
    } else if placed.unit.legs.len() > 0 {
        let tags = tags_of_legs(&placed.unit.legs);
        Some(join(&tags, ","))
    } else {
        None
    };
    let title = placed.unit.title.as_str();
    let ip = if contains(title, " V6 ") {
        Some(owned("v6"))
    } else if contains(title, " V4 ") {
        Some(owned("v4"))
    } else {
        None
    };
    let args = unit_effective_args(&placed.unit);
    let mut value_sources: Vec<String> = Vec::new();
    value_sources.push(owned(SUITE_VALUES));
    assert(texts(value_sources@) =~= seq![SUITE_VALUES@]);
    PlanTrace {
        seq: index + 1,
        pair_id,
        link_set_id,
        suite_id,
        lane_id: copy_opt_text(&task_id),
        task_id,
        recipe_id,
        protocol,
        direction,
        ip,
        requested_args: copy_texts(&args),
        effective_args: args,
        value_sources,
        skipped_reason: None,
        resumed,
    }
}

/// Whether a section holds the units of a trace's task.
pub open spec fn section_fits(section: PlanSectionView, trace: PlanTraceView) -> bool {
    section.link_set_id == trace.link_set_id && section.suite_id == trace.suite_id
        && section.task_id == trace.task_id
}

/// The index of the first section from `i` on that holds the units of a trace's task; the length
/// where there is none.
pub open spec fn section_index(sections: Seq<PlanSectionView>, trace: PlanTraceView, i: int) -> int
    decreases sections.len() - i,
{
    if i < 0 || i >= sections.len() {
        sections.len() as int
    } else if section_fits(sections[i], trace) {
        i
    } else {
        section_index(sections, trace, i + 1)
    }
}

/// Sections with one more unit: in the section of its task, or in a new one under its title.
pub open spec fn sections_with(
    sections: Seq<PlanSectionView>,
    trace: PlanTraceView,
    title: Seq<char>,
) -> Seq<PlanSectionView> {
    let at = section_index(sections, trace, 0);
    if at < sections.len() {
        sections.update(
            at,
            PlanSectionView { unit_seqs: sections[at].unit_seqs.push(trace.seq), ..sections[at] },
        )
    } else {
        sections.push(
            PlanSectionView {
                link_set_id: trace.link_set_id,
                suite_id: trace.suite_id,
                task_id: trace.task_id,
                title,
                unit_seqs: seq![trace.seq],
            },
        )
    }
}

/// Adds a unit to the section of its task, or to a new one under its title.
pub fn add_to_sections(sections: &mut Vec<PlanSection>, trace: &PlanTrace, title: &str)
    ensures
        views(final(sections)@) == sections_with(views(old(sections)@), trace@, title@),
{
    broadcast use group_views;

    let ghost before = views(sections@);
    let mut i: usize = 0;
    while i < sections.len() && !(same_opt(&sections[i].link_set_id, &trace.link_set_id)
        && same_opt(&sections[i].suite_id, &trace.suite_id) && same_opt(
        &sections[i].task_id,
        &trace.task_id,
    ))
        invariant
            i <= sections@.len(),
            before == views(sections@),
            sections@ == old(sections)@,
            section_index(before, trace@, 0) == section_index(before, trace@, i as int),
        decreases sections@.len() - i,
    {
        assert(before[i as int] == sections@[i as int]@);
        i += 1;
    }
    if i < sections.len() {
        assert(before[i as int] == sections@[i as int]@);
        sections[i].unit_seqs.push(trace.seq);
        assert(views(sections@) =~= sections_with(before, trace@, title@));
    } else {
        let mut unit_seqs: Vec<usize> = Vec::new();
        unit_seqs.push(trace.seq);
        assert(unit_seqs@ =~= seq![trace.seq]);
        sections.push(
            PlanSection {
                link_set_id: copy_opt_text(&trace.link_set_id),
                suite_id: copy_opt_text(&trace.suite_id),
                task_id: copy_opt_text(&trace.task_id),
                title: owned(title),
                unit_seqs,
            },
        );
    }
}

/// Whether a unit is skipped because it passed lately: only where runs resume.
pub open spec fn unit_resumed(resume: bool, fresh: Seq<Seq<char>>, unit: Unit) -> bool {
    resume && fresh.contains(unit.id@)
}

/// The traces of units.
pub open spec fn traces(units: Seq<PlacedUnitView>, resume: bool, fresh: Seq<Seq<char>>) -> Seq<
    PlanTraceView,
> {
    Seq::new(
        units.len(),
        |i: int| trace_of(units[i], i, unit_resumed(resume, fresh, units[i].unit)),
    )
}

/// The sections of the first `n` units.
pub open spec fn sections_to(
    units: Seq<PlacedUnitView>,
    resume: bool,
    fresh: Seq<Seq<char>>,
    n: int,
) -> Seq<PlanSectionView>
    decreases n,
{
    if n <= 0 {
        Seq::empty()
    } else {
        sections_with(
            sections_to(units, resume, fresh, n - 1),
            traces(units, resume, fresh)[n - 1],
            units[n - 1].unit.title@,
        )
    }
}

// ---------------------------------------------------------------------------
// Compiled plans
// ---------------------------------------------------------------------------

/// What building the tests of a configuration gave.
#[derive(Debug)]
pub enum Build {
    /// A suite plan: each test on its own.
    Suite(Vec<Result<BuiltTest, String>>),
    /// A matrix: all tests that could be built, together.
    Matrix { specs: Vec<Result<(), String>>, units: Vec<Unit>, notices: Vec<String> },
}

impl Build {
    /// Whether there is an outcome for each of `n` tests.
    pub open spec fn fits(self, n: nat) -> bool {
        match self {
            Build::Suite(built) => built@.len() == n,
            Build::Matrix { specs, .. } => specs@.len() == n,
        }
    }
}

/// A plan that a preview shows and a run is held to.
#[derive(Debug)]
pub struct CompiledPlan {
    pub cfg: Config,
    pub units: Vec<Unit>,
    pub notices: Vec<String>,
    pub resumed: Vec<bool>,
    pub trace: Vec<PlanTrace>,
    pub sections: Vec<PlanSection>,
    pub plan_hash: String,
    pub topology_fingerprint: String,
    pub spec_errors: Vec<String>,
}

/// What a plan says beyond its configuration and its fingerprints.
pub ghost struct CompiledView {
    pub units: Seq<Unit>,
    pub notices: Seq<Seq<char>>,
    pub resumed: Seq<bool>,
    pub trace: Seq<PlanTraceView>,
    pub sections: Seq<PlanSectionView>,
    pub spec_errors: Seq<Seq<char>>,
}

impl View for CompiledPlan {
    type V = CompiledView;

    open spec fn view(&self) -> CompiledView {
        CompiledView {
            units: self.units@,
            notices: texts(self.notices@),
            resumed: self.resumed@,
            trace: views(self.trace@),
            sections: views(self.sections@),
            spec_errors: texts(self.spec_errors@),
        }
    }
}

/// Which units are skipped because they passed lately.
pub open spec fn resumed_units(resume: bool, fresh: Seq<Seq<char>>, units: Seq<Unit>) -> Seq<bool> {
    Seq::new(units.len(), |i: int| unit_resumed(resume, fresh, units[i]))
}

/// The units themselves.
pub open spec fn bare_units(units: Seq<PlacedUnitView>) -> Seq<Unit> {
    Seq::new(units.len(), |i: int| units[i].unit)
}

/// What a preview says of units that were left out as repetitions.
pub open spec fn repeat_notice(all: nat, left: nat) -> Seq<Seq<char>> {
    if all > left {
        seq![
            "计划去重：移除了 "@ + decimal((all - left) as nat)
                + " 个最终参数完全相同的重复单元"@,
        ]
    } else {
        Seq::empty()
    }
}

/// The plan of a suite: its units in order, each id once, traced to the tasks they come from.
pub open spec fn suite_compiled(
    tests: Seq<TestSpec>,
    resume: bool,
    built: Seq<Result<BuiltTest, String>>,
    fresh: Seq<Seq<char>>,
) -> CompiledView {
    let n = tests.len() as int;
    let all = placed_to(tests, built, n);
    let left = kept(all);
    CompiledView {
        units: bare_units(left),
        notices: build_notices_to(tests, built, n) + repeat_notice(all.len(), left.len()),
        resumed: resumed_units(resume, fresh, bare_units(left)),
        trace: traces(left, resume, fresh),
        sections: sections_to(left, resume, fresh, left.len() as int),
        spec_errors: build_errors_to(tests, built, n),
    }
}

/// What a preview says of the first `n` tests of a matrix that could not be built.
pub open spec fn skip_notices_to(
    tests: Seq<TestSpec>,
    specs: Seq<Result<(), String>>,
    n: int,
) -> Seq<Seq<char>>
    decreases n,
{
    if n <= 0 {
        Seq::empty()
    } else {
        match specs[n - 1] {
            Ok(_) => skip_notices_to(tests, specs, n - 1),
            Err(e) => skip_notices_to(tests, specs, n - 1).push(
                "跳过 "@ + tests[n - 1].name@ + ": "@ + e@,
            ),
        }
    }
}

/// The plan of a matrix: its units as they were built, without traces.
pub open spec fn matrix_compiled(
    tests: Seq<TestSpec>,
    resume: bool,
    specs: Seq<Result<(), String>>,
    units: Seq<Unit>,
    notices: Seq<Seq<char>>,
    fresh: Seq<Seq<char>>,
) -> CompiledView {
    let n = tests.len() as int;
    CompiledView {
        units,
        notices: skip_notices_to(tests, specs, n) + notices,
        resumed: resumed_units(resume, fresh, units),
        trace: Seq::empty(),
        sections: Seq::empty(),
        spec_errors: build_errors_to(tests, specs, n),
    }
}

/// The plan of a configuration from what building its tests gave.
pub open spec fn compiled(
    tests: Seq<TestSpec>,
    resume: bool,
    build: Build,
    fresh: Seq<Seq<char>>,
) -> CompiledView {
    match build {
        Build::Suite(built) => suite_compiled(tests, resume, built@, fresh),
        Build::Matrix { specs, units, notices } => matrix_compiled(
            tests,
            resume,
            specs@,
            units@,
            texts(notices@),
            fresh,
        ),
    }
}

/// Which units are skipped because they passed lately.
pub fn find_resumed(resume: bool, fresh: &Vec<String>, units: &Vec<Unit>) -> (r: Vec<bool>)
    ensures
        r@ == resumed_units(resume, texts(fresh@), units@),
{
    let ghost all = resumed_units(resume, texts(fresh@), units@);
    let mut r: Vec<bool> = Vec::new();
    let mut i: usize = 0;
    while i < units.len()
        invariant
            i <= units@.len(),
            all == resumed_units(resume, texts(fresh@), units@),
            r@ == all.take(i as int),
        decreases units@.len() - i,
    {
        let skipped = resume && lists(fresh, units[i].id.as_str());
        r.push(skipped);
        assert(all.take(i as int).push(all[i as int]) =~= all.take(i + 1));
        i += 1;
    }
    assert(all.take(i as int) =~= all);
    r
}

/// The message about a test that could not be built.
pub fn build_error(test: &TestSpec, error: &str) -> (r: String)
    ensures
        r@ == test.name@ + " 无法生成任务："@ + error@,
{
    cat3(test.name.as_str(), " 无法生成任务：", error)
}

/// The notice about a test that could not be built.
pub fn skip_notice(test: &TestSpec, error: &str) -> (r: String)
    ensures
        r@ == "跳过 "@ + test.name@ + ": "@ + error@,
{
    cat4("跳过 ", test.name.as_str(), ": ", error)
}

/// The traces and the sections of units.
pub fn trace_units(units: &Vec<PlacedUnit>, resume: bool, fresh: &Vec<String>) -> (r: (
    Vec<PlanTrace>,
    Vec<PlanSection>,
))
    ensures
        views(r.0@) == traces(views(units@), resume, texts(fresh@)),
        views(r.1@) == sections_to(
            views(units@),
            resume,
            texts(fresh@),
            units@.len() as int,
        ),
{
    broadcast use group_views;

    let ghost all = traces(views(units@), resume, texts(fresh@));
    let mut trace: Vec<PlanTrace> = Vec::new();
    let mut sections: Vec<PlanSection> = Vec::new();
    let mut i: usize = 0;
    while i < units.len()
        invariant
            i <= units@.len(),
            all == traces(views(units@), resume, texts(fresh@)),
            views(trace@) == all.take(i as int),
            views(sections@) == sections_to(views(units@), resume, texts(fresh@), i as int),
        decreases units@.len() - i,
    {
        let placed = &units[i];
        assert(views(units@)[i as int] == placed@);
        let resumed = resume && lists(fresh, placed.unit.id.as_str());
        let one = trace_unit(placed, i, resumed);
        assert(one@ == all[i as int]);
        add_to_sections(&mut sections, &one, placed.unit.title.as_str());
        trace.push(one);
        assert(all.take(i as int).push(all[i as int]) =~= all.take(i + 1));
        i += 1;
    }
    assert(all.take(i as int) =~= all);
    (trace, sections)
}

/// The units themselves.
pub fn unplace(units: Vec<PlacedUnit>) -> (r: Vec<Unit>)
    ensures
        r@ == bare_units(views(units@)),
{
    let ghost all = bare_units(views(units@));
    let mut r: Vec<Unit> = Vec::new();
    for placed in it: units
        invariant
            it.seq() == units@,
            all == bare_units(views(units@)),
            all.len() == units@.len(),
            r@ == all.take(it.index@ as int),
    {
        let ghost i = it.index@ as int;
        assert(all[i] == units@[i]@.unit);
        r.push(placed.unit);
        assert(all.take(i).push(all[i]) =~= all.take(i + 1));
    }
    assert(all.take(all.len() as int) =~= all);
    r
}

/// The plan of a suite.
pub fn compile_suite(
    cfg: Config,
    built: Vec<Result<BuiltTest, String>>,
    fresh: &Vec<String>,
    plan_hash: String,
    topology_fingerprint: String,
) -> (r: CompiledPlan)
    requires
        built@.len() == cfg.tests@.len(),
    ensures
        r@ == suite_compiled(cfg.tests@, cfg.resume, built@, texts(fresh@)),
        r.cfg == cfg,
        r.plan_hash == plan_hash,
        r.topology_fingerprint == topology_fingerprint,
{
    broadcast use group_views;

    let ghost tests = cfg.tests@;
    let mut placed: Vec<PlacedUnit> = Vec::new();
    let mut notices: Vec<String> = Vec::new();
    let mut spec_errors: Vec<String> = Vec::new();
    let ghost outcomes = built@;
    let count: usize = cfg.tests.len();
    let mut i: usize = 0;
    for outcome in it: built
        invariant
            i == it.index@,
            count == tests.len(),
            it.seq() == outcomes,
            built@ == outcomes,
            tests == cfg.tests@,
            outcomes.len() == tests.len(),
            views(placed@) == placed_to(tests, outcomes, it.index@ as int),
            texts(notices@) == build_notices_to(tests, outcomes, it.index@ as int),
            texts(spec_errors@) == build_errors_to(tests, outcomes, it.index@ as int),
    {
        assert(outcome == outcomes[i as int]);
        let test = &cfg.tests[i];
        match outcome {
            Ok(one) => {
                let mut more = copy_texts(&one.notices);
                notices.append(&mut more);
                place_units(&mut placed, test, one);
            },
            Err(e) => {
                spec_errors.push(build_error(test, e.as_str()));
                notices.push(skip_notice(test, e.as_str()));
            },
        }
        i += 1;
    }
    let all: usize = placed.len();
    let ghost everything = views(placed@);
    let left = keep_first_units(placed);
    proof {
        lemma_kept_to(everything, everything.len() as int);
        assert(everything.len() == all);
        assert(views(left@).len() == left@.len());
    }
    if all > left.len() {
        let number = decimal_text((all - left.len()) as u64);
        notices.push(
            cat3(
                "计划去重：移除了 ",
                number.as_str(),
                " 个最终参数完全相同的重复单元",
            ),
        );
    }
    assert(texts(notices@) =~= build_notices_to(tests, outcomes, tests.len() as int)
        + repeat_notice(everything.len(), views(left@).len()));
    let (trace, sections) = trace_units(&left, cfg.resume, fresh);
    let units = unplace(left);
    let resumed = find_resumed(cfg.resume, fresh, &units);
    CompiledPlan {
        cfg,
        units,
        notices,
        resumed,
        trace,
        sections,
        plan_hash,
        topology_fingerprint,
        spec_errors,
    }
}

/// The plan of a matrix.
pub fn compile_matrix(
    cfg: Config,
    specs: &Vec<Result<(), String>>,
    units: Vec<Unit>,
    build_notices: &Vec<String>,
    fresh: &Vec<String>,
    plan_hash: String,
    topology_fingerprint: String,
) -> (r: CompiledPlan)
    requires
        specs@.len() == cfg.tests@.len(),
    ensures
        r@ == matrix_compiled(
            cfg.tests@,
            cfg.resume,
            specs@,
            units@,
            texts(build_notices@),
            texts(fresh@),
        ),
        r.cfg == cfg,
        r.plan_hash == plan_hash,
        r.topology_fingerprint == topology_fingerprint,
{
    broadcast use group_views;

    let ghost tests = cfg.tests@;
    let mut notices: Vec<String> = Vec::new();
    let mut spec_errors: Vec<String> = Vec::new();
    let mut i: usize = 0;
    while i < specs.len()
        invariant
            i <= specs@.len(),
            tests == cfg.tests@,
            specs@.len() == tests.len(),
            texts(notices@) == skip_notices_to(tests, specs@, i as int),
            texts(spec_errors@) == build_errors_to(tests, specs@, i as int),
        decreases specs@.len() - i,
    {
        let test = &cfg.tests[i];
        match &specs[i] {
            Ok(_) => {},
            Err(e) => {
                spec_errors.push(build_error(test, e.as_str()));
                notices.push(skip_notice(test, e.as_str()));
            },
        }
        i += 1;
    }
    let mut more = copy_texts(build_notices);
    notices.append(&mut more);
    let resumed = find_resumed(cfg.resume, fresh, &units);
    CompiledPlan {
        cfg,
        units,
        notices,
        resumed,
        trace: Vec::new(),
        sections: Vec::new(),
        plan_hash,
        topology_fingerprint,
        spec_errors,
    }
}

/// The plan of a configuration from what building its tests gave.
pub fn compile_config(
    cfg: Config,
    build: Build,
    fresh: &Vec<String>,
    plan_hash: String,
    topology_fingerprint: String,
) -> (plan: CompiledPlan)
    requires
        build.fits(cfg.tests@.len()),
    ensures
        plan@ == compiled(cfg.tests@, cfg.resume, build, texts(fresh@)),
        plan.cfg == cfg,
        plan.plan_hash == plan_hash,
        plan.topology_fingerprint == topology_fingerprint,
{
    match build {
        Build::Suite(built) => compile_suite(cfg, built, fresh, plan_hash, topology_fingerprint),
        Build::Matrix { specs, units, notices } => compile_matrix(
            cfg,
            &specs,
            units,
            &notices,
            fresh,
            plan_hash,
            topology_fingerprint,
        ),
    }
}

/// The plan of a request: a complaint about it, the problems that were found in its configuration,
/// or that configuration with what building its tests gave. Where the request brings a project's
/// configuration in `master_config`, `state.cfg` must already hold it: the caller puts it over the
/// console's own with [`with_baseline`](crate::baseline::with_baseline).
pub fn compile_request(
    state: &UiState,
    rd: &Readings,
    req: &RunRequest,
    problems: &Vec<String>,
    build: Build,
    fresh: &Vec<String>,
    plan_hash: String,
    topology_fingerprint: String,
) -> (r: Result<CompiledPlan, String>)
    requires
        build.fits(request_config(*state, *rd, *req).tests.len()),
        build is Suite <==> req.ui_plan is Some,
    ensures
        match r {
            Ok(plan) => {
                &&& validated_told(*state, *rd, *req, texts(problems@)) == Ok::<
                    ConfigView,
                    Seq<char>,
                >(plan.cfg@)
                &&& plan@ == compiled(plan.cfg.tests@, plan.cfg.resume, build, texts(fresh@))
                &&& plan.plan_hash == plan_hash
                &&& plan.topology_fingerprint == topology_fingerprint
            },
            Err(e) => validated_told(*state, *rd, *req, texts(problems@)) == Err::<
                ConfigView,
                Seq<char>,
            >(e@),
        },
{
    match validated_config_from_request(state, rd, req, problems) {
        Err(e) => Err(e),
        Ok(cfg) => {
            assert(cfg@.tests.len() == cfg.tests@.len());
            Ok(compile_config(cfg, build, fresh, plan_hash, topology_fingerprint))
        },
    }
}

/// The text about a configuration that comes to no unit.
pub open spec fn nothing_built(notices: Seq<Seq<char>>) -> Seq<char> {
    "所选配置最终没有生成任何测试单元"@ + if notices.len() == 0 {
        Seq::<char>::empty()
    } else {
        "："@ + joined(notices, "；"@)
    }
}

/// The text about a configuration that comes to no unit.
pub fn nothing_built_text(notices: &Vec<String>) -> (r: String)
    ensures
        r@ == nothing_built(texts(notices@)),
{
    assert(texts(notices@).len() == notices@.len());
    let detail = if notices.len() == 0 {
        String::new()
    } else {
        let list = join(notices, "；");
        cat2("：", list.as_str())
    };
    cat2("所选配置最终没有生成任何测试单元", detail.as_str())
}

/// The first test from index `i` on that could not be built.
pub open spec fn first_build_error(
    tests: Seq<TestSpec>,
    specs: Seq<Result<(), String>>,
    i: int,
) -> Result<(), Seq<char>>
    decreases specs.len() - i,
{
    if i < 0 || i >= specs.len() {
        Ok(())
    } else {
        match specs[i] {
            Err(e) => Err(tests[i].name@ + " 无法生成任务："@ + e@),
            Ok(_) => first_build_error(tests, specs, i + 1),
        }
    }
}

/// Checks that a configuration comes to units: that each test can be built, and that there is a
/// unit.
pub fn ensure_config_builds_units(
    cfg: &Config,
    specs: &Vec<Result<(), String>>,
    units: &Vec<Unit>,
    notices: &Vec<String>,
) -> (r: Result<(), String>)
    requires
        specs@.len() == cfg.tests@.len(),
    ensures
        told(r) == match first_build_error(cfg.tests@, specs@, 0) {
            Err(e) => Err(e),
            Ok(_) => if units@.len() == 0 {
                Err(nothing_built(texts(notices@)))
            } else {
                Ok(())
            },
        },
{
    let mut i: usize = 0;
    while i < specs.len()
        invariant
            i <= specs@.len(),
            specs@.len() == cfg.tests@.len(),
            first_build_error(cfg.tests@, specs@, 0) == first_build_error(
                cfg.tests@,
                specs@,
                i as int,
            ),
        decreases specs@.len() - i,
    {
        match &specs[i] {
            Ok(_) => {},
            Err(e) => {
                return Err(build_error(&cfg.tests[i], e.as_str()));
            },
        }
        i += 1;
    }
    if units.len() == 0 {
        return Err(nothing_built_text(notices));
    }
    Ok(())
}

// ---------------------------------------------------------------------------
// Previews
// ---------------------------------------------------------------------------

/// One unit as a preview shows it.
#[derive(Debug)]
pub struct PlannedUnit {
    pub seq: usize,
    pub title: String,
    pub est_secs: u64,
    /// Whether the unit is expected to be skipped.
    pub resumed: bool,
    /// What each leg is finally run with.
    pub load: Vec<String>,
    /// What each leg is finally held to.
    pub targets: Vec<String>,
}

/// What a [`PlannedUnit`] holds.
pub ghost struct PlannedUnitView {
    pub seq: usize,
    pub title: Seq<char>,
    pub est_secs: u64,
    pub resumed: bool,
    pub load: Seq<Seq<char>>,
    pub targets: Seq<Seq<char>>,
}

impl View for PlannedUnit {
    type V = PlannedUnitView;

    open spec fn view(&self) -> PlannedUnitView {
        PlannedUnitView {
            seq: self.seq,
            title: self.title@,
            est_secs: self.est_secs,
            resumed: self.resumed,
            load: views(self.load@),
            targets: views(self.targets@),
        }
    }
}

/// A plan as a preview shows it.
#[derive(Debug)]
pub struct PlanOut {
    pub units: Vec<PlannedUnit>,
    /// Seconds that the units take that are not skipped.
    pub est_total_secs: u64,
    /// Seconds that all units take.
    pub est_full_secs: u64,
    pub notices: Vec<String>,
    pub sections: Vec<PlanSection>,
    pub trace: Vec<PlanTrace>,
    pub plan_hash: Option<String>,
    pub topology_fingerprint: Option<String>,
    pub ui_plan_supported: bool,
}

/// For how many hours a pass counts when a run resumes.
pub const RESUME_MAX_AGE_HOURS: u64 = 24;

/// The seconds that the first `n` units take; those that are skipped count only where `full` is
/// set.
pub open spec fn seconds_to(units: Seq<Unit>, resumed: Seq<bool>, full: bool, n: int) -> nat
    decreases n,
{
    if n <= 0 {
        0
    } else if full || !resumed[n - 1] {
        seconds_to(units, resumed, full, n - 1) + units[n - 1].est_secs as nat
    } else {
        seconds_to(units, resumed, full, n - 1)
    }
}

/// How many of the first `n` are set.
pub open spec fn count_set(flags: Seq<bool>, n: int) -> nat
    decreases n,
{
    if n <= 0 {
        0
    } else if flags[n - 1] {
        count_set(flags, n - 1) + 1
    } else {
        count_set(flags, n - 1)
    }
}

/// What a preview says where the run resumes.
pub open spec fn resume_notice(skipped: nat, all: nat) -> Seq<char> {
    if skipped == 0 {
        "resume 已开启，但 24 小时内没有可复用的 PASS，"@ + decimal(all) + " 个单元全部实跑"@
    } else {
        "resume 已开启："@ + decimal(skipped) + "/"@ + decimal(all)
            + " 个单元在 24 小时内已 PASS，预计跳过。执行时还会再判一次"@
    }
}

/// The units of a plan as a preview shows them.
pub open spec fn planned_units(units: Seq<Unit>, resumed: Seq<bool>) -> Seq<PlannedUnitView> {
    Seq::new(
        units.len(),
        |i: int|
            PlannedUnitView {
                seq: (i + 1) as usize,
                title: units[i].title@,
                est_secs: units[i].est_secs,
                resumed: resumed[i],
                load: load_lines_to(units[i], units[i].legs@.len() as int),
                targets: target_lines(units[i]),
            },
    )
}

/// Skipping never adds to the time that a plan takes.
pub proof fn lemma_resuming_takes_no_longer(units: Seq<Unit>, resumed: Seq<bool>, n: int)
    requires
        0 <= n <= units.len(),
        resumed.len() == units.len(),
    ensures
        seconds_to(units, resumed, false, n) <= seconds_to(units, resumed, true, n),
        (forall|i: int| 0 <= i < n ==> !#[trigger] resumed[i]) ==> seconds_to(
            units,
            resumed,
            false,
            n,
        ) == seconds_to(units, resumed, true, n),
    decreases n,
{
    if n > 0 {
        lemma_resuming_takes_no_longer(units, resumed, n - 1);
    }
}

proof fn lemma_seconds_grow(units: Seq<Unit>, resumed: Seq<bool>, full: bool, n: int, m: int)
    requires
        0 <= n <= m <= units.len(),
    ensures
        seconds_to(units, resumed, full, n) <= seconds_to(units, resumed, full, m),
    decreases m - n,
{
    if n < m {
        lemma_seconds_grow(units, resumed, full, n, m - 1);
    }
}

/// A plan as a preview shows it.
pub fn plan_out(plan: CompiledPlan) -> (r: PlanOut)
    requires
        plan.resumed@.len() == plan.units@.len(),
        seconds_to(plan.units@, plan.resumed@, true, plan.units@.len() as int) <= u64::MAX,
    ensures
        views(r.units@) == planned_units(plan.units@, plan.resumed@),
        r.est_total_secs == seconds_to(
            plan.units@,
            plan.resumed@,
            false,
            plan.units@.len() as int,
        ),
        r.est_full_secs == seconds_to(plan.units@, plan.resumed@, true, plan.units@.len() as int),
        texts(r.notices@) == if plan.cfg.resume {
            texts(plan.notices@).push(
                resume_notice(
                    count_set(plan.resumed@, plan.resumed@.len() as int),
                    plan.units@.len(),
                ),
            )
        } else {
            texts(plan.notices@)
        },
        views(r.sections@) == views(plan.sections@),
        views(r.trace@) == views(plan.trace@),
        opt_text(r.plan_hash) == Some(plan.plan_hash@),
        opt_text(r.topology_fingerprint) == Some(plan.topology_fingerprint@),
        r.ui_plan_supported,
{
    broadcast use group_views;

    let ghost bare = plan.units@;
    let ghost flags = plan.resumed@;
    let ghost all = planned_units(bare, flags);
    let mut units: Vec<PlannedUnit> = Vec::new();
    let mut total: u64 = 0;
    let mut full: u64 = 0;
    let mut skipped: usize = 0;
    let mut i: usize = 0;
    while i < plan.units.len()
        invariant
            i <= bare.len(),
            bare == plan.units@,
            flags == plan.resumed@,
            flags.len() == bare.len(),
            all == planned_units(bare, flags),
            seconds_to(bare, flags, true, bare.len() as int) <= u64::MAX,
            views(units@) == all.take(i as int),
            total == seconds_to(bare, flags, false, i as int),
            full == seconds_to(bare, flags, true, i as int),
            skipped == count_set(flags, i as int),
            skipped <= i,
        decreases bare.len() - i,
    {
        let unit = &plan.units[i];
        proof {
            lemma_seconds_grow(bare, flags, true, i + 1, bare.len() as int);
            lemma_resuming_takes_no_longer(bare, flags, i as int);
        }
        full = full + unit.est_secs;
        if plan.resumed[i] {
            skipped = skipped + 1;
        } else {
            total = total + unit.est_secs;
        }
        let one = PlannedUnit {
            seq: i + 1,
            title: unit.title.clone(),
            est_secs: unit.est_secs,
            resumed: plan.resumed[i],
            load: unit_load_lines(unit),
            targets: unit_target_lines(unit),
        };
        assert(one@ == all[i as int]);
        units.push(one);
        assert(all.take(i as int).push(all[i as int]) =~= all.take(i + 1));
        i += 1;
    }
    assert(all.take(i as int) =~= all);
    let count: usize = plan.units.len();
    let mut notices = plan.notices;
    if plan.cfg.resume {
        let total_text = decimal_text(count as u64);
        if skipped == 0 {
            notices.push(
                cat3(
                    "resume 已开启，但 24 小时内没有可复用的 PASS，",
                    total_text.as_str(),
                    " 个单元全部实跑",
                ),
            );
        } else {
            let skipped_text = decimal_text(skipped as u64);
            notices.push(
                cat5(
                    "resume 已开启：",
                    skipped_text.as_str(),
                    "/",
                    total_text.as_str(),
                    " 个单元在 24 小时内已 PASS，预计跳过。执行时还会再判一次",
                ),
            );
        }
    }
    PlanOut {
        units,
        est_total_secs: total,
        est_full_secs: full,
        notices,
        sections: plan.sections,
        trace: plan.trace,
        plan_hash: Some(plan.plan_hash),
        topology_fingerprint: Some(plan.topology_fingerprint),
        ui_plan_supported: true,
    }
}

// ---------------------------------------------------------------------------
// Starting a run
// ---------------------------------------------------------------------------

/// Whether both hosts have interfaces.
pub open spec fn connected(state: UiState) -> bool {
    state.master.interfaces@.len() > 0 && state.agent.interfaces@.len() > 0
}

/// Checks that both hosts have interfaces.
pub fn require_connected(state: &UiState) -> (r: Result<(), String>)
    ensures
        told(r) == if connected(*state) {
            Ok(())
        } else {
            Err("还没连上辅测机，先点「连接」"@)
        },
{
    if state.master.interfaces.len() == 0 || state.agent.interfaces.len() == 0 {
        Err(owned("还没连上辅测机，先点「连接」"))
    } else {
        Ok(())
    }
}

/// The complaint about starting a run at all: not while the console quits, nor beside another run.
pub open spec fn start_told(shutting_down: bool, running: bool) -> Result<(), Seq<char>> {
    if shutting_down {
        Err("控制台正在退出，不能开始新的测试"@)
    } else if running {
        Err("已经有一轮测试在跑了"@)
    } else {
        Ok(())
    }
}

/// Checks that a run may start at all.
pub fn admit_run(shutting_down: bool, running: bool) -> (r: Result<(), String>)
    ensures
        told(r) == start_told(shutting_down, running),
{
    if shutting_down {
        Err(owned("控制台正在退出，不能开始新的测试"))
    } else if running {
        Err(owned("已经有一轮测试在跑了"))
    } else {
        Ok(())
    }
}

/// The flag of a run after a start was asked for: set where one may start, else as it was.
pub open spec fn flag_begun(running: bool, shutting_down: bool) -> bool {
    running || start_told(shutting_down, running) is Ok
}

/// The flag of a run after what a start that was let in came to: as it is where the run could be
/// prepared, else taken back.
pub open spec fn flag_settled(running: bool, prepared: bool) -> bool {
    running && prepared
}

/// Sets the flag of a run where one may start. A start that is refused leaves the flag as it was, so
/// that a run under way goes on as such.
pub fn begin_run(running: &mut bool, shutting_down: bool) -> (r: Result<(), String>)
    ensures
        told(r) == start_told(shutting_down, *old(running)),
        *final(running) == flag_begun(*old(running), shutting_down),
        r is Ok ==> *final(running),
        r is Err ==> *final(running) == *old(running),
{
    match admit_run(shutting_down, *running) {
        Ok(_) => {
            *running = true;
            Ok(())
        },
        Err(e) => Err(e),
    }
}

/// Takes the flag of a run back where a start that was let in came to nothing: its plan was refused,
/// or its file or its thread could not be made.
pub fn settle_start<T>(running: &mut bool, prepared: &Result<T, String>)
    ensures
        *final(running) == flag_settled(*old(running), prepared is Ok),
        prepared is Err ==> !*final(running),
        prepared is Ok ==> *final(running) == *old(running),
{
    if prepared.is_err() {
        *running = false;
    }
}

/// A start that is refused, at once or after it was let in, leaves the flag of a run as it was before;
/// one that goes through sets it.
pub proof fn lemma_refused_starts_leave_the_flag(
    running: bool,
    shutting_down: bool,
    prepared: bool,
)
    ensures
        start_told(shutting_down, running) is Err ==> flag_begun(running, shutting_down) == running,
        start_told(shutting_down, running) is Ok && !prepared ==> flag_settled(
            flag_begun(running, shutting_down),
            prepared,
        ) == running,
        start_told(shutting_down, running) is Ok && prepared ==> flag_settled(
            flag_begun(running, shutting_down),
            prepared,
        ),
{
}

/// Whether a notice is about something that is skipped.
pub open spec fn skips(notice: Seq<char>) -> bool {
    begins(trimmed_start(notice), "跳过 "@)
}

/// Whether a notice is about something that is skipped.
pub open spec fn any_skips(notices: Seq<String>) -> bool {
    exists|i: int| 0 <= i < notices.len() && skips((#[trigger] notices[i])@)
}

/// Whether a notice is about something that is skipped.
pub fn has_skips(notices: &Vec<String>) -> (r: bool)
    ensures
        r == any_skips(notices@),
{
    let mut i: usize = 0;
    while i < notices.len()
        invariant
            i <= notices@.len(),
            forall|k: int| 0 <= k < i ==> !skips((#[trigger] notices@[k])@),
        decreases notices@.len() - i,
    {
        if starts_with(trim_start(notices[i].as_str()), "跳过 ") {
            return true;
        }
        i += 1;
    }
    false
}

/// The fingerprint of the plan that was confirmed: that of the request, or of its suite plan.
pub open spec fn confirmed_hash(req: RunRequest) -> Option<Seq<char>> {
    match req.plan_hash {
        Some(hash) => Some(hash@),
        None => match req.ui_plan {
            Some(plan) => opt_text(plan.plan_hash),
            None => None,
        },
    }
}

/// The complaint about running a plan. A suite plan runs only as it was previewed: complete, and
/// with the fingerprint that was confirmed.
pub open spec fn run_told(req: RunRequest, plan: CompiledPlan) -> Result<(), Seq<char>> {
    let suite = req.ui_plan is Some;
    let hash = confirmed_hash(req);
    if plan.spec_errors@.len() > 0 {
        Err(plan.spec_errors@[0]@)
    } else if suite && any_skips(plan.notices@) {
        Err("计划包含不可执行的链路或 IP 版本，请在复核页排除后重新预览"@)
    } else if suite && (hash is None || blank(hash->0)) {
        Err("请先预览任务并携带 plan_hash 后再开始测试"@)
    } else if suite && hash->0 != plan.plan_hash@ {
        Err("计划已过期或网口拓扑已变化，请重新预览任务"@)
    } else if plan.units@.len() == 0 {
        Err(nothing_built(texts(plan.notices@)))
    } else if plan.cfg.tests@.len() == 0 {
        Err("一个测试项都没勾"@)
    } else {
        Ok(())
    }
}

/// Checks that a plan may run.
pub fn confirm_run(req: &RunRequest, plan: &CompiledPlan) -> (r: Result<(), String>)
    ensures
        told(r) == run_told(*req, *plan),
{
    if plan.spec_errors.len() > 0 {
        return Err(plan.spec_errors[0].clone());
    }
    if let Some(ui_plan) = &req.ui_plan {
        if has_skips(&plan.notices) {
            return Err(owned("计划包含不可执行的链路或 IP 版本，请在复核页排除后重新预览"));
        }
        let supplied = if req.plan_hash.is_some() {
            copy_opt_text(&req.plan_hash)
        } else {
            copy_opt_text(&ui_plan.plan_hash)
        };
        match supplied {
            None => {
                return Err(owned("请先预览任务并携带 plan_hash 后再开始测试"));
            },
            Some(hash) => {
                if is_blank(hash.as_str()) {
                    return Err(owned("请先预览任务并携带 plan_hash 后再开始测试"));
                }
                if !same(hash.as_str(), plan.plan_hash.as_str()) {
                    return Err(owned("计划已过期或网口拓扑已变化，请重新预览任务"));
                }
            },
        }
    }
    if plan.units.len() == 0 {
        return Err(nothing_built_text(&plan.notices));
    }
    if plan.cfg.tests.len() == 0 {
        return Err(owned("一个测试项都没勾"));
    }
    Ok(())
}

/// A suite plan runs only with the fingerprint that its preview gave.
pub proof fn lemma_only_the_confirmed_plan_runs(req: RunRequest, plan: CompiledPlan)
    requires
        req.ui_plan is Some,
        run_told(req, plan) is Ok,
    ensures
        confirmed_hash(req) == Some(plan.plan_hash@),
        !any_skips(plan.notices@),
        plan.spec_errors@.len() == 0,
        plan.units@.len() > 0,
{
}

} // verus!
