//! What a compiled plan tells of the tests that it was made of.
use vstd::prelude::*;
use vstd::string::*;
use crate::compile::{
    build_errors_to, build_notices_to, confirmed_hash, connected, count_set, first_build_error,
    flag_begun, flag_settled, kept, kept_to, leg_tags, matrix_compiled, placed_to, placed_units,
    planned_units, protocol_of, run_told, seconds_to, section_fits, section_index, sections_to,
    sections_with, skip_notices_to, skips, source_in_name, source_of, start_told, suite_compiled,
    title_version, trace_direction, trace_protocol, traces, BuiltTest, CompiledPlan, PlacedUnitView,
    PlanSectionView, PlanTraceView, UiSourceView,
};
use crate::config::{TestSpec, UiOriginView};
use crate::meaning::text::{lemma_case_is_of_letters, lemma_joined_pieces_come_back};
use crate::model::{RunRequest, UiState};
use crate::readings::Endpoint;
use crate::text::{
    alike, blank, decimal, find_char, has, joined, lemma_find_char, lowered, opt_text, pieces,
    texts, trimmed_start,
};
use crate::units::{
    effective_args_to, leg_ends, load_lines_to, target_lines, unit_direction, Leg, LegKind, Unit,
};
use crate::url::{lemma_url_encoded_is_plain, lemma_url_round_trip, url_encoded};

verus! {

/// Whether a placed unit is the one that a test was built into at an index, with what the test
/// says of where it comes from.
pub open spec fn is_placed(placed: PlacedUnitView, test: TestSpec, built: BuiltTest, k: int) -> bool {
    &&& 0 <= k < built.units@.len()
    &&& placed.unit == built.units@[k]
    &&& placed.source == source_of(test)
    &&& placed.direction == unit_direction(built.units@[k], built.src, built.dst)
}

/// Whether a placed unit is one of those that a test was built into.
pub open spec fn placed_from(
    placed: PlacedUnitView,
    test: TestSpec,
    built: Result<BuiltTest, String>,
) -> bool {
    built is Ok && exists|k: int| #[trigger] is_placed(placed, test, built->Ok_0, k)
}

/// Whether one of the first `n` tests was built into a unit.
pub open spec fn built_into(
    placed: PlacedUnitView,
    tests: Seq<TestSpec>,
    built: Seq<Result<BuiltTest, String>>,
    n: int,
) -> bool {
    exists|t: int| 0 <= t < n && placed_from(placed, #[trigger] tests[t], built[t])
}

/// Whether a text holds no capital `A` to `Z`.
pub open spec fn in_small_letters(s: Seq<char>) -> bool {
    forall|i: int| 0 <= i < s.len() ==> !('A' <= #[trigger] s[i] <= 'Z')
}

/// A test with a kind `ping` is a ping test; any other is of the protocol of its first transport, in
/// small letters; one without transports is of none.
pub proof fn lemma_protocol_is_of_the_test(test: TestSpec)
    ensures
        (exists|i: int|
            0 <= i < test.kinds@.len() && alike((#[trigger] test.kinds@[i])@, "ping"@))
            ==> protocol_of(test) == Some("ping"@),
        (forall|i: int|
            0 <= i < test.kinds@.len() ==> !alike((#[trigger] test.kinds@[i])@, "ping"@)) ==> {
            &&& protocol_of(test) is Some <==> test.transports@.len() > 0
            &&& protocol_of(test) matches Some(p) ==> alike(p, test.transports@[0]@)
                && in_small_letters(p)
        },
{
    if test.transports@.len() > 0 {
        let t = test.transports@[0]@;
        let p = lowered(t);
        assert forall|i: int| 0 <= i < p.len() implies !('A' <= #[trigger] p[i] <= 'Z') by {
            lemma_case_is_of_letters(t, i);
        }
        assert(lowered(p) =~= p);
    }
}

/// A test that tells its origin comes from there, item by item.
pub proof fn lemma_origin_is_told(test: TestSpec)
    requires
        test.origin is Some,
        !test.origin->0@.vacant(),
    ensures
        ({
            let origin = test.origin->0@;
            source_of(test) matches Some(s) && s.pair_id == origin.pair_id && s.link_set_id
                == origin.link_set_id && s.suite_id == origin.suite_id && s.task_id
                == origin.task_id && s.recipe_id == origin.recipe_id && (protocol_of(test)
                == Some(s.protocol) || (protocol_of(test) is None && s.protocol.len() == 0))
        }),
{
}

/// An origin says nothing when every item of it is empty.
pub proof fn lemma_empty_origins_say_nothing(origin: UiOriginView)
    ensures
        origin.vacant() ==> origin.pair_id.len() == 0 && origin.link_set_id.len() == 0
            && origin.link_set_name.len() == 0 && origin.binding_id.len() == 0
            && origin.suite_id.len() == 0 && origin.task_id.len() == 0 && origin.recipe_id.len()
            == 0,
        origin.pair_id.len() > 0 || origin.link_set_id.len() > 0 || origin.link_set_name.len() > 0
            || origin.binding_id.len() > 0 || origin.suite_id.len() > 0 || origin.task_id.len() > 0
            || origin.recipe_id.len() > 0 || origin.vacant(),
{
}

/// A test without an origin comes from where its name says, if it says so.
pub proof fn lemma_name_stands_in_for_the_origin(test: TestSpec)
    requires
        test.origin is None || test.origin->0@.vacant(),
    ensures
        source_of(test) == source_in_name(test.name@),
{
}

proof fn lemma_encoded_has_no_slash(s: Seq<char>)
    ensures
        !(url_encoded(s).contains('/')),
{
    let e = url_encoded(s);
    if e.contains('/') {
        let i = choose|i: int| 0 <= i < e.len() && e[i] == '/';
        lemma_url_encoded_is_plain(s, i);
        assert(e[i] as u8 == 47);
    }
}

/// A name that is written with where a test comes from is read as that.
pub proof fn lemma_written_names_are_read(
    link_set: Seq<char>,
    binding: Seq<char>,
    pair: Seq<char>,
    suite: Seq<char>,
    task: Seq<char>,
    recipe: Seq<char>,
    protocol: Seq<char>,
    number: Seq<char>,
)
    requires
        !(protocol.contains('/')),
        !(protocol.contains('-')),
        !(number.contains('/')),
    ensures
        source_in_name(
            joined(
                seq![
                    "ui-plan"@,
                    url_encoded(link_set),
                    url_encoded(binding),
                    url_encoded(pair),
                    url_encoded(suite),
                    url_encoded(task),
                    url_encoded(recipe),
                    protocol.push('-') + number,
                ],
                seq!['/'],
            ),
        ) == Some(
            UiSourceView {
                pair_id: pair,
                link_set_id: link_set,
                suite_id: suite,
                task_id: task,
                recipe_id: recipe,
                protocol,
            },
        ),
{
    let last = protocol.push('-') + number;
    let parts = seq![
        "ui-plan"@,
        url_encoded(link_set),
        url_encoded(binding),
        url_encoded(pair),
        url_encoded(suite),
        url_encoded(task),
        url_encoded(recipe),
        last,
    ];
    reveal_strlit("ui-plan");
    lemma_encoded_has_no_slash(link_set);
    lemma_encoded_has_no_slash(binding);
    lemma_encoded_has_no_slash(pair);
    lemma_encoded_has_no_slash(suite);
    lemma_encoded_has_no_slash(task);
    lemma_encoded_has_no_slash(recipe);
    assert(!(last.contains('/'))) by {
        if last.contains('/') {
            let i = choose|i: int| 0 <= i < last.len() && last[i] == '/';
            if i < protocol.len() {
                assert(protocol[i] == '/');
            } else if i > protocol.len() {
                assert(number[i - protocol.len() - 1] == '/');
            }
        }
    }
    assert forall|i: int| 0 <= i < parts.len() implies !(#[trigger] parts[i]).contains('/') by {}
    lemma_joined_pieces_come_back(parts, '/');
    lemma_url_round_trip(link_set);
    lemma_url_round_trip(pair);
    lemma_url_round_trip(suite);
    lemma_url_round_trip(task);
    lemma_url_round_trip(recipe);
    lemma_find_char(last, '-', 0);
    let k = find_char(last, '-', 0);
    assert(last[protocol.len() as int] == '-');
    if k < protocol.len() {
        assert(protocol[k] == last[k]);
        assert(protocol.contains('-'));
    }
    assert(last.take(k) =~= protocol);
    assert(pieces(last, '-')[0] == protocol);
}

/// A name that is not written so tells nothing of where a test comes from.
pub proof fn lemma_other_names_tell_nothing(name: Seq<char>)
    requires
        pieces(name, '/').len() < 8 || pieces(name, '/')[0] != "ui-plan"@,
    ensures
        source_in_name(name) is None,
{
}

/// Every placed unit is one that a test was built into.
pub proof fn lemma_placed_units_are_built(
    tests: Seq<TestSpec>,
    built: Seq<Result<BuiltTest, String>>,
    n: int,
    j: int,
)
    requires
        0 <= n <= tests.len(),
        0 <= j < placed_to(tests, built, n).len(),
    ensures
        built_into(placed_to(tests, built, n)[j], tests, built, n),
    decreases n,
{
    if n > 0 {
        let before = placed_to(tests, built, n - 1);
        let all = placed_to(tests, built, n);
        if j < before.len() {
            assert(all[j] == before[j]);
            lemma_placed_units_are_built(tests, built, n - 1, j);
            let t = choose|t: int|
                0 <= t < n - 1 && placed_from(before[j], #[trigger] tests[t], built[t]);
            assert(placed_from(all[j], tests[t], built[t]));
        } else {
            let b = built[n - 1]->Ok_0;
            let more = placed_units(tests[n - 1], b);
            assert(all[j] == more[j - before.len()]);
            assert(is_placed(all[j], tests[n - 1], b, j - before.len()));
            assert(placed_from(all[j], tests[n - 1], built[n - 1]));
        }
    }
}

/// Every unit that a test was built into is placed.
pub proof fn lemma_built_units_are_placed(
    tests: Seq<TestSpec>,
    built: Seq<Result<BuiltTest, String>>,
    n: int,
    t: int,
    k: int,
)
    requires
        0 <= t < n <= tests.len(),
        built[t] is Ok,
        0 <= k < built[t]->Ok_0.units@.len(),
    ensures
        exists|j: int|
            0 <= j < placed_to(tests, built, n).len() && is_placed(
                #[trigger] placed_to(tests, built, n)[j],
                tests[t],
                built[t]->Ok_0,
                k,
            ),
    decreases n,
{
    let before = placed_to(tests, built, n - 1);
    let all = placed_to(tests, built, n);
    if t == n - 1 {
        let more = placed_units(tests[t], built[t]->Ok_0);
        assert(all[before.len() + k] == more[k]);
        assert(is_placed(all[before.len() + k], tests[t], built[t]->Ok_0, k));
    } else {
        lemma_built_units_are_placed(tests, built, n - 1, t, k);
        let j = choose|j: int|
            0 <= j < before.len() && is_placed(
                #[trigger] before[j],
                tests[t],
                built[t]->Ok_0,
                k,
            );
        assert(all[j] == before[j]);
    }
}

/// The first of several units with one id is the one that stays.
pub proof fn lemma_first_of_an_id_stays(units: Seq<PlacedUnitView>, k: int)
    requires
        0 <= k < units.len(),
        forall|j: int| 0 <= j < k ==> (#[trigger] units[j]).unit.id@ != units[k].unit.id@,
    ensures
        kept(units).contains(units[k]),
{
    lemma_kept_has(units, k, units.len() as int);
}

proof fn lemma_kept_has(units: Seq<PlacedUnitView>, k: int, n: int)
    requires
        0 <= k < n <= units.len(),
        forall|j: int| 0 <= j < k ==> (#[trigger] units[j]).unit.id@ != units[k].unit.id@,
    ensures
        kept_to(units, n).contains(units[k]),
    decreases n,
{
    let before = kept_to(units, n - 1);
    let all = kept_to(units, n);
    if k == n - 1 {
        assert(all[before.len() as int] == units[k]);
    } else {
        lemma_kept_has(units, k, n - 1);
        let j = choose|j: int| 0 <= j < before.len() && before[j] == units[k];
        assert(all[j] == before[j]);
    }
}

/// A test that could not be built is reported once, by its name and the reason; one that could is
/// not.
pub proof fn lemma_failures_are_reported<T>(
    tests: Seq<TestSpec>,
    built: Seq<Result<T, String>>,
    n: int,
)
    requires
        0 <= n <= tests.len(),
    ensures
        forall|t: int|
            0 <= t < n && (#[trigger] built[t]) is Err ==> build_errors_to(
                tests,
                built,
                n,
            ).contains(tests[t].name@ + " 无法生成任务："@ + built[t]->Err_0@),
        (forall|t: int| 0 <= t < n ==> (#[trigger] built[t]) is Ok) ==> build_errors_to(
            tests,
            built,
            n,
        ).len() == 0,
        n > 0 && built[n - 1] is Err ==> build_errors_to(tests, built, n).len()
            == build_errors_to(tests, built, n - 1).len() + 1,
        n > 0 && built[n - 1] is Ok ==> build_errors_to(tests, built, n) == build_errors_to(
            tests,
            built,
            n - 1,
        ),
    decreases n,
{
    if n > 0 {
        lemma_failures_are_reported(tests, built, n - 1);
        let before = build_errors_to(tests, built, n - 1);
        let all = build_errors_to(tests, built, n);
        assert forall|t: int| 0 <= t < n && (#[trigger] built[t]) is Err implies all.contains(
            tests[t].name@ + " 无法生成任务："@ + built[t]->Err_0@,
        ) by {
            let text = tests[t].name@ + " 无法生成任务："@ + built[t]->Err_0@;
            if t < n - 1 {
                let j = choose|j: int| 0 <= j < before.len() && before[j] == text;
                assert(all[j] == before[j]);
            } else {
                assert(all[before.len() as int] == text);
            }
        }
    }
}

/// The first test that could not be built is what a matrix is refused for.
pub proof fn lemma_first_failure_refuses(
    tests: Seq<TestSpec>,
    specs: Seq<Result<(), String>>,
    i: int,
)
    requires
        0 <= i <= specs.len(),
    ensures
        first_build_error(tests, specs, i) is Ok <==> forall|t: int|
            i <= t < specs.len() ==> (#[trigger] specs[t]) is Ok,
        forall|t: int|
            i <= t < specs.len() && (#[trigger] specs[t]) is Err && (forall|u: int|
                i <= u < t ==> (#[trigger] specs[u]) is Ok) ==> first_build_error(tests, specs, i)
                == Err::<(), Seq<char>>(
                tests[t].name@ + " 无法生成任务："@ + specs[t]->Err_0@,
            ),
    decreases specs.len() - i,
{
    if i < specs.len() && specs[i] is Ok {
        lemma_first_failure_refuses(tests, specs, i + 1);
        assert forall|t: int|
            i <= t < specs.len() && (#[trigger] specs[t]) is Err && (forall|u: int|
                i <= u < t ==> (#[trigger] specs[u]) is Ok) implies first_build_error(
            tests,
            specs,
            i,
        ) == Err::<(), Seq<char>>(tests[t].name@ + " 无法生成任务："@ + specs[t]->Err_0@) by {
            assert(t > i);
            assert(forall|u: int| i + 1 <= u < t ==> (#[trigger] specs[u]) is Ok);
        }
    } else if i < specs.len() {
        assert(specs[i] is Err);
    }
}

/// A notice tells of every skipped test, by its name and the reason, and of whatever was noticed
/// in building the others.
pub proof fn lemma_notices_tell_of_skips(
    tests: Seq<TestSpec>,
    built: Seq<Result<BuiltTest, String>>,
    n: int,
    t: int,
)
    requires
        0 <= t < n <= tests.len(),
    ensures
        built[t] matches Err(e) ==> build_notices_to(tests, built, n).contains(
            "跳过 "@ + tests[t].name@ + ": "@ + e@,
        ),
        built[t] matches Ok(b) ==> forall|k: int|
            0 <= k < b.notices@.len() ==> build_notices_to(tests, built, n).contains(
                (#[trigger] b.notices@[k])@,
            ),
    decreases n,
{
    let before = build_notices_to(tests, built, n - 1);
    let all = build_notices_to(tests, built, n);
    if t < n - 1 {
        lemma_notices_tell_of_skips(tests, built, n - 1, t);
        assert forall|text: Seq<char>| before.contains(text) implies #[trigger] all.contains(text) by {
            let j = choose|j: int| 0 <= j < before.len() && before[j] == text;
            assert(all[j] == before[j]);
        }
    } else {
        match built[t] {
            Err(e) => {
                assert(all[before.len() as int] == "跳过 "@ + tests[t].name@ + ": "@ + e@);
            },
            Ok(b) => {
                assert forall|k: int| 0 <= k < b.notices@.len() implies all.contains(
                    (#[trigger] b.notices@[k])@,
                ) by {
                    assert(texts(b.notices@)[k] == b.notices@[k]@);
                    assert(all[before.len() + k] == b.notices@[k]@);
                }
            },
        }
    }
}

/// A matrix, too, tells of every test that it skips.
pub proof fn lemma_matrix_notices_tell_of_skips(
    tests: Seq<TestSpec>,
    specs: Seq<Result<(), String>>,
    n: int,
    t: int,
)
    requires
        0 <= t < n <= tests.len(),
        specs[t] is Err,
    ensures
        skip_notices_to(tests, specs, n).contains(
            "跳过 "@ + tests[t].name@ + ": "@ + specs[t]->Err_0@,
        ),
    decreases n,
{
    let before = skip_notices_to(tests, specs, n - 1);
    let all = skip_notices_to(tests, specs, n);
    let text = "跳过 "@ + tests[t].name@ + ": "@ + specs[t]->Err_0@;
    if t < n - 1 {
        lemma_matrix_notices_tell_of_skips(tests, specs, n - 1, t);
        let j = choose|j: int| 0 <= j < before.len() && before[j] == text;
        assert(all[j] == before[j]);
    } else {
        assert(all[before.len() as int] == text);
    }
}

/// A unit with legs both ways runs both ways. One with a leg from the first end to the second runs
/// forth, one with the leg the other way runs back, and exchanging the ends exchanges the two.
pub proof fn lemma_direction_is_that_of_the_first_leg(unit: Unit, src: Endpoint, dst: Endpoint)
    requires
        src.key_text() != dst.key_text(),
    ensures
        unit.bidir ==> unit_direction(unit, src, dst) == Some("bidir"@),
        !unit.bidir && unit.legs@.len() > 0 ==> (leg_ends(unit.legs@[0]) matches Some((a, b)) ==> (
        a.key_text() == src.key_text() && b.key_text() == dst.key_text() ==> unit_direction(
            unit,
            src,
            dst,
        ) == Some("ab"@) && unit_direction(unit, dst, src) == Some("ba"@))),
        !unit.bidir ==> (unit_direction(unit, src, dst) is None <==> unit_direction(unit, dst, src)
            is None),
{
}

/// A leg goes between the ends of its task, or of the first of its streams.
pub proof fn lemma_ends_are_those_of_the_task(leg: Leg)
    ensures
        leg.kind matches LegKind::IperfSingle(task) ==> leg_ends(leg) == Some((task.src, task.dst)),
        leg.kind matches LegKind::CtsTraffic(task) ==> leg_ends(leg) == Some((task.src, task.dst)),
        leg.kind matches LegKind::Ping(task) ==> leg_ends(leg) == Some((task.src, task.dst)),
        leg.kind matches LegKind::IperfGroup(streams) ==> {
            &&& streams@.len() > 0 ==> leg_ends(leg) == Some((streams@[0].src, streams@[0].dst))
            &&& streams@.len() == 0 ==> leg_ends(leg) is None
        },
{
}

/// A trace entry numbers its unit from one and tells where it comes from; a unit whose source is
/// not known tells nothing of it.
pub proof fn lemma_trace_tells_the_source(
    units: Seq<PlacedUnitView>,
    resume: bool,
    fresh: Seq<Seq<char>>,
    i: int,
)
    requires
        0 <= i < units.len() < usize::MAX,
    ensures
        traces(units, resume, fresh).len() == units.len(),
        ({
            let entry = traces(units, resume, fresh)[i];
            &&& entry.seq == i + 1
            &&& entry.resumed <==> resume && fresh.contains(units[i].unit.id@)
            &&& entry.lane_id == entry.task_id
            &&& entry.skipped_reason is None
            &&& entry.requested_args == entry.effective_args
            &&& units[i].source matches Some(s) ==> {
                &&& entry.pair_id == Some(s.pair_id)
                &&& entry.suite_id == Some(s.suite_id)
                &&& entry.task_id == Some(s.task_id)
                &&& entry.recipe_id == Some(s.recipe_id)
                &&& s.link_set_id.len() > 0 ==> entry.link_set_id == Some(s.link_set_id)
                &&& s.link_set_id.len() == 0 ==> entry.link_set_id is None
                &&& s.protocol.len() > 0 ==> entry.protocol == Some(s.protocol)
            }
            &&& units[i].source is None ==> entry.pair_id is None && entry.link_set_id is None
                && entry.suite_id is None && entry.task_id is None && entry.recipe_id is None
            &&& units[i].direction is Some ==> entry.direction == units[i].direction
            &&& units[i].unit.legs@.len() > 0 ==> entry.protocol is Some && entry.direction is Some
        }),
{
}

/// A unit whose source names no protocol is of that of its first leg: a ping, or what its stream
/// runs over.
pub proof fn lemma_first_leg_names_the_protocol(placed: PlacedUnitView)
    requires
        placed.source is None || placed.source->0.protocol.len() == 0,
        placed.unit.legs@.len() > 0,
    ensures
        placed.unit.legs@[0].kind is Ping ==> trace_protocol(placed) == Some("ping"@),
        placed.unit.legs@[0].kind matches LegKind::IperfSingle(task) ==> trace_protocol(placed)
            == Some(
            if task.udp {
                "udp"@
            } else {
                "tcp"@
            },
        ),
        placed.unit.legs@[0].kind matches LegKind::CtsTraffic(task) ==> trace_protocol(placed)
            == Some(
            if task.udp {
                "udp"@
            } else {
                "tcp"@
            },
        ),
        placed.unit.legs@[0].kind matches LegKind::IperfGroup(streams) ==> (streams@.len() > 0
            ==> trace_protocol(placed) == Some(
            if streams@[0].udp {
                "udp"@
            } else {
                "tcp"@
            },
        )),
{
}

/// A unit without a direction of its own tells those of its legs, those without one as forth.
pub proof fn lemma_lone_leg_gives_the_direction(placed: PlacedUnitView)
    requires
        placed.direction is None,
        placed.unit.legs@.len() == 1,
    ensures
        placed.unit.legs@[0].tag@.len() > 0 ==> trace_direction(placed) == Some(
            placed.unit.legs@[0].tag@,
        ),
        placed.unit.legs@[0].tag@.len() == 0 ==> trace_direction(placed) == Some("ab"@),
{
}

/// The directions of several legs stand in their order, with commas between them.
pub proof fn lemma_legs_give_their_directions(placed: PlacedUnitView)
    requires
        placed.direction is None,
        placed.unit.legs@.len() > 0,
        forall|i: int|
            0 <= i < placed.unit.legs@.len() ==> !(#[trigger] placed.unit.legs@[i]).tag@.contains(
                ',',
            ),
    ensures
        trace_direction(placed) is Some,
        ({
            let legs = placed.unit.legs@;
            let parts = pieces(trace_direction(placed)->0, ',');
            &&& parts.len() == legs.len()
            &&& forall|i: int|
                0 <= i < legs.len() ==> #[trigger] parts[i] == if legs[i].tag@.len() > 0 {
                    legs[i].tag@
                } else {
                    "ab"@
                }
        }),
{
    reveal_strlit(",");
    reveal_strlit("ab");
    let tags = leg_tags(placed.unit.legs@);
    assert(","@ =~= seq![',']);
    assert forall|i: int| 0 <= i < tags.len() implies !(#[trigger] tags[i]).contains(',') by {
        if placed.unit.legs@[i].tag@.len() == 0 && "ab"@.contains(',') {
            let k = choose|k: int| 0 <= k < "ab"@.len() && "ab"@[k] == ',';
            assert(k == 0 || k == 1);
        }
    }
    lemma_joined_pieces_come_back(tags, ',');
}

/// The version of a unit is the one that stands in its title, six before four.
pub proof fn lemma_title_tells_the_version(title: Seq<char>)
    ensures
        has(title, " V6 "@) <==> title_version(title) == Some("v6"@),
        has(title, " V4 "@) && !(has(title, " V6 "@)) <==> title_version(title) == Some("v4"@),
        !(has(title, " V4 "@)) && !(has(title, " V6 "@)) <==> title_version(title) is None,
{
    reveal_strlit("v6");
    reveal_strlit("v4");
    assert("v6"@[1] != "v4"@[1]);
}

/// The arguments of a unit are those of its legs, one leg after the other; legs that run no iperf
/// have none.
pub proof fn lemma_arguments_are_of_the_legs(unit: Unit, n: int)
    requires
        0 < n <= unit.legs@.len(),
    ensures
        ({
            let leg = unit.legs@[n - 1];
            let before = effective_args_to(unit, n - 1);
            let all = effective_args_to(unit, n);
            &&& leg.kind matches LegKind::IperfSingle(task) ==> all == before + texts(task.extra@)
            &&& leg.kind matches LegKind::IperfGroup(streams) ==> (streams@.len() > 0 ==> all
                == before + texts(streams@[0].extra@))
            &&& leg.kind is Ping || leg.kind is CtsTraffic ==> all == before
        }),
        effective_args_to(unit, 0).len() == 0,
{
}

// ---------------------------------------------------------------------------
// Sections
// ---------------------------------------------------------------------------

/// Whether two sections are of one task of one suite on one link set.
pub open spec fn same_section(a: PlanSectionView, b: PlanSectionView) -> bool {
    a.link_set_id == b.link_set_id && a.suite_id == b.suite_id && a.task_id == b.task_id
}

/// Whether a section lists units of its own task only, in their order, and is titled by the first.
pub open spec fn section_lists(
    section: PlanSectionView,
    units: Seq<PlacedUnitView>,
    entries: Seq<PlanTraceView>,
    n: int,
) -> bool {
    &&& section.unit_seqs.len() > 0
    &&& forall|p: int|
        0 <= p < section.unit_seqs.len() ==> {
            let seq = #[trigger] section.unit_seqs[p];
            &&& 1 <= seq <= n
            &&& section.link_set_id == entries[seq - 1].link_set_id
            &&& section.suite_id == entries[seq - 1].suite_id
            &&& section.task_id == entries[seq - 1].task_id
        }
    &&& forall|p: int, q: int|
        0 <= p < q < section.unit_seqs.len() ==> #[trigger] section.unit_seqs[p]
            < #[trigger] section.unit_seqs[q]
    &&& section.title == units[section.unit_seqs[0] - 1].unit.title@
}

/// Whether one of the sections lists a unit.
pub open spec fn listed(sections: Seq<PlanSectionView>, seq: usize) -> bool {
    exists|s: int| 0 <= s < sections.len() && (#[trigger] sections[s]).unit_seqs.contains(seq)
}

proof fn lemma_section_index(sections: Seq<PlanSectionView>, entry: PlanTraceView, i: int)
    requires
        0 <= i <= sections.len(),
    ensures
        i <= section_index(sections, entry, i) <= sections.len(),
        section_index(sections, entry, i) < sections.len() ==> section_fits(
            sections[section_index(sections, entry, i)],
            entry,
        ),
        forall|s: int|
            i <= s < section_index(sections, entry, i) ==> !section_fits(
                #[trigger] sections[s],
                entry,
            ),
    decreases sections.len() - i,
{
    if i < sections.len() && !section_fits(sections[i], entry) {
        lemma_section_index(sections, entry, i + 1);
    }
}

/// The sections of a plan are one for each task of each suite on each link set. Each lists the units
/// of that task and no others, in their order, and is titled by the first of them; every unit is
/// listed.
#[verifier::rlimit(40)]
pub proof fn lemma_sections_are_the_tasks(
    units: Seq<PlacedUnitView>,
    resume: bool,
    fresh: Seq<Seq<char>>,
    n: int,
)
    requires
        0 <= n <= units.len() < usize::MAX,
    ensures
        ({
            let sections = sections_to(units, resume, fresh, n);
            let entries = traces(units, resume, fresh);
            &&& forall|s: int|
                0 <= s < sections.len() ==> section_lists(
                    #[trigger] sections[s],
                    units,
                    entries,
                    n,
                )
            &&& forall|s: int, t: int|
                0 <= s < t < sections.len() ==> !same_section(
                    #[trigger] sections[s],
                    #[trigger] sections[t],
                )
            &&& forall|i: int| 0 <= i < n ==> listed(sections, (#[trigger] entries[i]).seq)
        }),
    decreases n,
{
    if n > 0 {
        lemma_sections_are_the_tasks(units, resume, fresh, n - 1);
        let before = sections_to(units, resume, fresh, n - 1);
        let sections = sections_to(units, resume, fresh, n);
        let entries = traces(units, resume, fresh);
        let entry = entries[n - 1];
        assert(entry.seq == n);
        lemma_section_index(before, entry, 0);
        let at = section_index(before, entry, 0);
        assert(sections == sections_with(before, entry, units[n - 1].unit.title@));
        assert forall|s: int| 0 <= s < sections.len() implies section_lists(
            #[trigger] sections[s],
            units,
            entries,
            n,
        ) by {
            if s < before.len() {
                assert(section_lists(before[s], units, entries, n - 1));
                if s == at {
                    let (old_list, list) = (before[s].unit_seqs, sections[s].unit_seqs);
                    assert(list == old_list.push(entry.seq));
                    assert forall|p: int| 0 <= p < list.len() implies {
                        let seq = #[trigger] list[p];
                        &&& 1 <= seq <= n
                        &&& sections[s].link_set_id == entries[seq - 1].link_set_id
                        &&& sections[s].suite_id == entries[seq - 1].suite_id
                        &&& sections[s].task_id == entries[seq - 1].task_id
                    } by {
                        if p < old_list.len() {
                            assert(list[p] == old_list[p]);
                        }
                    }
                    assert forall|p: int, q: int| 0 <= p < q < list.len() implies #[trigger] list[p]
                        < #[trigger] list[q] by {
                        assert(list[p] == old_list[p]);
                        if q < old_list.len() {
                            assert(list[q] == old_list[q]);
                        }
                    }
                    assert(list[0] == old_list[0]);
                }
            } else {
                assert(sections[s].unit_seqs =~= seq![entry.seq]);
            }
        }
        assert forall|s: int, t: int| 0 <= s < t < sections.len() implies !same_section(
            #[trigger] sections[s],
            #[trigger] sections[t],
        ) by {
            if t < before.len() {
                assert(!same_section(before[s], before[t]));
            } else {
                assert(!section_fits(before[s], entry));
            }
        }
        assert forall|i: int| 0 <= i < n implies listed(sections, (#[trigger] entries[i]).seq) by {
            let seq = entries[i].seq;
            if i < n - 1 {
                assert(listed(before, entries[i].seq));
                let s = choose|s: int|
                    0 <= s < before.len() && (#[trigger] before[s]).unit_seqs.contains(seq);
                let p = choose|p: int|
                    0 <= p < before[s].unit_seqs.len() && before[s].unit_seqs[p] == seq;
                assert(sections[s].unit_seqs[p] == seq);
                assert(sections[s].unit_seqs.contains(seq));
            } else if at < before.len() {
                assert(sections[at].unit_seqs[before[at].unit_seqs.len() as int] == seq);
                assert(sections[at].unit_seqs.contains(seq));
            } else {
                assert(sections[before.len() as int].unit_seqs[0] == seq);
                assert(sections[before.len() as int].unit_seqs.contains(seq));
            }
        }
    }
}

// ---------------------------------------------------------------------------
// The plan as a whole
// ---------------------------------------------------------------------------

/// A suite plan has its units without repeats, tells of each whether it is skipped, traces each, and
/// reports every test that could not be built.
pub proof fn lemma_suite_plan_is_whole(
    tests: Seq<TestSpec>,
    resume: bool,
    built: Seq<Result<BuiltTest, String>>,
    fresh: Seq<Seq<char>>,
)
    ensures
        ({
            let plan = suite_compiled(tests, resume, built, fresh);
            let all = placed_to(tests, built, tests.len() as int);
            &&& plan.units.len() == kept(all).len()
            &&& forall|i: int|
                0 <= i < plan.units.len() ==> #[trigger] plan.units[i] == kept(all)[i].unit
            &&& plan.resumed.len() == plan.units.len()
            &&& plan.trace.len() == plan.units.len()
            &&& forall|i: int|
                0 <= i < plan.units.len() ==> (#[trigger] plan.resumed[i] <==> resume
                    && fresh.contains(plan.units[i].id@))
            &&& plan.spec_errors == build_errors_to(tests, built, tests.len() as int)
            &&& plan.units.len() == all.len() ==> plan.notices == build_notices_to(
                tests,
                built,
                tests.len() as int,
            )
            &&& plan.units.len() < all.len() ==> plan.notices.len() == build_notices_to(
                tests,
                built,
                tests.len() as int,
            ).len() + 1 && has(
                plan.notices.last(),
                decimal((all.len() - plan.units.len()) as nat),
            )
        }),
{
    let plan = suite_compiled(tests, resume, built, fresh);
    let all = placed_to(tests, built, tests.len() as int);
    let before = build_notices_to(tests, built, tests.len() as int);
    if plan.units.len() == all.len() {
        assert(plan.notices =~= before);
    }
    if plan.units.len() < all.len() {
        let left = kept(all);
        let (head, number, tail) = (
            "计划去重：移除了 "@,
            decimal((all.len() - left.len()) as nat),
            " 个最终参数完全相同的重复单元"@,
        );
        let text = head + number + tail;
        assert(plan.notices.last() == text);
        assert(text.subrange(head.len() as int, (head.len() + number.len()) as int) =~= number);
        assert(crate::text::occurs_at(text, number, head.len() as int));
    }
}

/// A matrix plan has the units that were built, tells of each whether it is skipped, has neither
/// trace nor sections, and tells of the skipped tests before anything else.
pub proof fn lemma_matrix_plan_is_whole(
    tests: Seq<TestSpec>,
    resume: bool,
    specs: Seq<Result<(), String>>,
    units: Seq<Unit>,
    notices: Seq<Seq<char>>,
    fresh: Seq<Seq<char>>,
)
    ensures
        ({
            let plan = matrix_compiled(tests, resume, specs, units, notices, fresh);
            let skipped = skip_notices_to(tests, specs, tests.len() as int);
            &&& plan.units == units
            &&& plan.resumed.len() == units.len()
            &&& forall|i: int|
                0 <= i < units.len() ==> (#[trigger] plan.resumed[i] <==> resume && fresh.contains(
                    units[i].id@,
                ))
            &&& plan.trace.len() == 0
            &&& plan.sections.len() == 0
            &&& plan.notices == skipped + notices
            &&& plan.spec_errors == build_errors_to(tests, specs, tests.len() as int)
        }),
{
}

/// The seconds of a plan are those of its units: of all of them, or of those that are not skipped.
pub proof fn lemma_seconds_are_of_the_units(units: Seq<Unit>, resumed: Seq<bool>, n: int)
    requires
        0 < n <= units.len(),
        units.len() == resumed.len(),
    ensures
        seconds_to(units, resumed, true, 0) == 0,
        seconds_to(units, resumed, false, 0) == 0,
        seconds_to(units, resumed, true, n) == seconds_to(units, resumed, true, n - 1) + units[n
            - 1].est_secs,
        resumed[n - 1] ==> seconds_to(units, resumed, false, n) == seconds_to(
            units,
            resumed,
            false,
            n - 1,
        ),
        !resumed[n - 1] ==> seconds_to(units, resumed, false, n) == seconds_to(
            units,
            resumed,
            false,
            n - 1,
        ) + units[n - 1].est_secs,
{
}

/// Where no unit is skipped all of the time is left; where every unit is, none is.
pub proof fn lemma_skipping_saves_time(units: Seq<Unit>, resumed: Seq<bool>, n: int)
    requires
        0 <= n <= units.len(),
        units.len() == resumed.len(),
    ensures
        (forall|i: int| 0 <= i < n ==> !(#[trigger] resumed[i])) ==> seconds_to(
            units,
            resumed,
            false,
            n,
        ) == seconds_to(units, resumed, true, n) && count_set(resumed, n) == 0,
        (forall|i: int| 0 <= i < n ==> #[trigger] resumed[i]) ==> seconds_to(
            units,
            resumed,
            false,
            n,
        ) == 0 && count_set(resumed, n) == n,
        count_set(resumed, n) <= n,
        count_set(resumed, n) > 0 <==> exists|i: int| 0 <= i < n && #[trigger] resumed[i],
    decreases n,
{
    if n > 0 {
        lemma_skipping_saves_time(units, resumed, n - 1);
        assert(resumed[n - 1] || !resumed[n - 1]);
        if count_set(resumed, n) > 0 && !resumed[n - 1] {
            let i = choose|i: int| 0 <= i < n - 1 && #[trigger] resumed[i];
            assert(resumed[i]);
        }
    }
}

/// A planned unit is listed with its number from one, its title, its time and whether it is skipped.
pub proof fn lemma_units_are_listed(units: Seq<Unit>, resumed: Seq<bool>, i: int)
    requires
        0 <= i < units.len() < usize::MAX,
    ensures
        planned_units(units, resumed).len() == units.len(),
        ({
            let row = planned_units(units, resumed)[i];
            &&& row.seq == i + 1
            &&& row.title == units[i].title@
            &&& row.est_secs == units[i].est_secs
            &&& row.resumed == resumed[i]
            &&& row.load == load_lines_to(units[i], units[i].legs@.len() as int)
            &&& row.targets == target_lines(units[i])
        }),
{
}

// ---------------------------------------------------------------------------
// Running
// ---------------------------------------------------------------------------

/// A run begins exactly when none runs and the console is not shutting down; beginning raises the
/// flag, and a run that could not be prepared lowers it again.
pub proof fn lemma_one_run_at_a_time(shutting_down: bool, running: bool, prepared: bool)
    ensures
        start_told(shutting_down, running) is Ok <==> !shutting_down && !running,
        !shutting_down ==> flag_begun(running, shutting_down),
        running ==> flag_begun(running, shutting_down),
        shutting_down && !running ==> !flag_begun(running, shutting_down),
        flag_settled(running, prepared) <==> running && prepared,
        shutting_down && running ==> start_told(shutting_down, running) == start_told(
            shutting_down,
            false,
        ),
{
}

/// The console is connected once both hosts have interfaces.
pub proof fn lemma_connected_with_both_hosts(state: UiState)
    ensures
        connected(state) ==> state.master.interfaces@.len() > 0 && state.agent.interfaces@.len() > 0,
        !connected(state) ==> state.master.interfaces@.len() == 0 || state.agent.interfaces@.len()
            == 0,
{
}

/// The hash that a run confirms is the request's own, else that of its plan.
pub proof fn lemma_request_confirms_before_its_plan(req: RunRequest)
    ensures
        req.plan_hash matches Some(hash) ==> confirmed_hash(req) == Some(hash@),
        req.plan_hash is None ==> (req.ui_plan matches Some(plan) ==> confirmed_hash(req)
            == opt_text(plan.plan_hash)),
        req.plan_hash is None && req.ui_plan is None ==> confirmed_hash(req) is None,
{
}

/// A plan may run exactly when every test was built, there are units and tests and, for a suite, no
/// link is skipped and the confirmed hash is that of the plan.
pub proof fn lemma_plan_may_run(req: RunRequest, plan: CompiledPlan)
    ensures
        run_told(req, plan) is Ok <==> {
            &&& plan.spec_errors@.len() == 0
            &&& plan.units@.len() > 0
            &&& plan.cfg.tests@.len() > 0
            &&& req.ui_plan is Some ==> {
                &&& forall|i: int|
                    0 <= i < plan.notices@.len() ==> !skips((#[trigger] plan.notices@[i])@)
                &&& confirmed_hash(req) == Some(plan.plan_hash@)
                &&& !blank(plan.plan_hash@)
            }
        },
        plan.spec_errors@.len() > 0 ==> run_told(req, plan) == Err::<(), Seq<char>>(
            plan.spec_errors@[0]@,
        ),
{
}

/// A notice skips when it begins with the word for it, after any white space.
pub proof fn lemma_skipping_is_told_in_front(before: Seq<char>, rest: Seq<char>)
    requires
        crate::meaning::text::all_space(before),
    ensures
        skips(before + "跳过 "@ + rest),
{
    reveal_strlit("跳过 ");
    let word = "跳过 "@;
    let text = before + word + rest;
    lemma_spaces_go(before, word + rest);
    assert(text =~= before + (word + rest));
    assert((word + rest).subrange(0, word.len() as int) =~= word);
}

proof fn lemma_spaces_go(before: Seq<char>, rest: Seq<char>)
    requires
        crate::meaning::text::all_space(before),
        rest.len() > 0,
        !crate::text::space(rest[0]),
    ensures
        trimmed_start(before + rest) == rest,
    decreases before.len(),
{
    let s = before + rest;
    if before.len() > 0 {
        assert(s[0] == before[0]);
        let less = before.skip(1);
        assert forall|i: int| 0 <= i < less.len() implies crate::text::space(#[trigger] less[i]) by {
            assert(less[i] == before[i + 1]);
        }
        lemma_spaces_go(less, rest);
        assert(s.skip(1) =~= less + rest);
    } else {
        assert(s =~= rest);
    }
}

} // verus!
