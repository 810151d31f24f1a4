//! The part of a configuration that travels with a project, and how it is put over a host's own.
use vstd::prelude::*;
use crate::text::{group_views, lists, same, texts};

verus! {

/// A JSON value. Numbers stand as they are written.
#[derive(Debug)]
pub enum Json {
    Null,
    Flag(bool),
    Number(String),
    Text(String),
    List(Vec<Json>),
    Object(Vec<JsonField>),
}

/// A field of a JSON object.
#[derive(Debug)]
pub struct JsonField {
    pub name: String,
    pub value: Json,
}

// ---------------------------------------------------------------------------
// Fields
// ---------------------------------------------------------------------------

/// Where the first field of a name stands from index `i` on; the length where there is none.
pub open spec fn place(fields: Seq<JsonField>, name: Seq<char>, i: int) -> int
    decreases fields.len() - i,
{
    if i < 0 || i >= fields.len() {
        fields.len() as int
    } else if fields[i].name@ == name {
        i
    } else {
        place(fields, name, i + 1)
    }
}

/// The value of a field.
pub open spec fn field(fields: Seq<JsonField>, name: Seq<char>) -> Option<Json> {
    let at = place(fields, name, 0);
    if at < fields.len() {
        Some(fields[at].value)
    } else {
        None
    }
}

/// The value of a field of an object; none of another value.
pub open spec fn field_of(value: Json, name: Seq<char>) -> Option<Json> {
    match value {
        Json::Object(fields) => field(fields@, name),
        _ => None,
    }
}

proof fn lemma_place(fields: Seq<JsonField>, name: Seq<char>, i: int)
    requires
        0 <= i <= fields.len(),
    ensures
        i <= place(fields, name, i) <= fields.len(),
        place(fields, name, i) < fields.len() ==> fields[place(fields, name, i)].name@ == name,
        forall|k: int| i <= k < place(fields, name, i) ==> (#[trigger] fields[k]).name@ != name,
    decreases fields.len() - i,
{
    if i < fields.len() && fields[i].name@ != name {
        lemma_place(fields, name, i + 1);
    }
}

/// A place is where the first field of the name stands.
proof fn lemma_is_place(fields: Seq<JsonField>, name: Seq<char>, i: int, at: int)
    requires
        0 <= i <= at <= fields.len(),
        at < fields.len() ==> fields[at].name@ == name,
        forall|k: int| i <= k < at ==> (#[trigger] fields[k]).name@ != name,
    ensures
        place(fields, name, i) == at,
    decreases at - i,
{
    if i < at {
        lemma_is_place(fields, name, i + 1, at);
    }
}

/// A field that takes the place of one of the same name changes what that name stands for, and
/// nothing else.
proof fn lemma_replaced(fields: Seq<JsonField>, at: int, x: JsonField, name: Seq<char>)
    requires
        0 <= at < fields.len(),
        place(fields, x.name@, 0) == at,
    ensures
        field(fields.update(at, x), name) == if name == x.name@ {
            Some(x.value)
        } else {
            field(fields, name)
        },
{
    let after = fields.update(at, x);
    lemma_place(fields, name, 0);
    lemma_place(fields, x.name@, 0);
    let p = place(fields, name, 0);
    assert forall|k: int| 0 <= k < p implies (#[trigger] after[k]).name@ != name by {
        assert(fields[k].name@ != name);
        if k == at {
            assert(fields[at].name@ == x.name@);
        }
    }
    lemma_is_place(after, name, 0, p);
}

/// A field of a new name changes what that name stands for, and nothing else.
proof fn lemma_pushed(fields: Seq<JsonField>, x: JsonField, name: Seq<char>)
    requires
        field(fields, x.name@) is None,
    ensures
        field(fields.push(x), name) == if name == x.name@ {
            Some(x.value)
        } else {
            field(fields, name)
        },
{
    let after = fields.push(x);
    lemma_place(fields, name, 0);
    let p = place(fields, name, 0);
    assert forall|k: int| 0 <= k < p implies (#[trigger] after[k]).name@ != name by {
        assert(fields[k].name@ != name);
    }
    if name == x.name@ {
        lemma_is_place(after, name, 0, fields.len() as int);
    } else if p < fields.len() {
        lemma_is_place(after, name, 0, p);
    } else {
        lemma_is_place(after, name, 0, after.len() as int);
    }
}

/// Where the first field of a name stands.
fn find_field(fields: &Vec<JsonField>, name: &str) -> (r: Option<usize>)
    ensures
        match r {
            Some(at) => at < fields@.len() && place(fields@, name@, 0) == at,
            None => place(fields@, name@, 0) == fields@.len(),
        },
{
    let mut i: usize = 0;
    while i < fields.len()
        invariant
            i <= fields@.len(),
            place(fields@, name@, 0) == place(fields@, name@, i as int),
        decreases fields@.len() - i,
    {
        if same(fields[i].name.as_str(), name) {
            return Some(i);
        }
        i += 1;
    }
    None
}

// ---------------------------------------------------------------------------
// Merging
// ---------------------------------------------------------------------------

/// Whether `r` is `base` with `over` put over it: where both are objects, what `over` does not name
/// stays, what only it names is added and what both name is merged; elsewhere `over` takes the place
/// of `base`.
pub open spec fn is_merge(base: Json, over: Json, r: Json) -> bool
    decreases over, 0int,
{
    match (base, over) {
        (Json::Object(own), Json::Object(more)) => match r {
            Json::Object(out) => fields_merged(own@, more, out@),
            _ => false,
        },
        _ => r == over,
    }
}

/// Whether `out` is the fields `own` with the fields `more` put over them.
pub open spec fn fields_merged(own: Seq<JsonField>, more: Vec<JsonField>, out: Seq<JsonField>) -> bool
    decreases more, 1int,
{
    &&& forall|name: Seq<char>|
        field(more@, name) is None ==> #[trigger] field(out, name) == field(own, name)
    &&& forall|i: int|
        0 <= i < more@.len() && place(more@, (#[trigger] more@[i]).name@, 0) == i ==> field_merged(
            field(own, more@[i].name@),
            more@[i].value,
            field(out, more@[i].name@),
        )
}

/// Whether a field holds what stood there with another value put over it.
pub open spec fn field_merged(base: Option<Json>, over: Json, r: Option<Json>) -> bool
    decreases over, 1int,
{
    match (base, r) {
        (Some(b), Some(o)) => is_merge(b, over, o),
        (None, Some(o)) => o == over,
        (_, None) => false,
    }
}

/// A value with another put over it.
pub fn merge(base: Json, over: Json) -> (r: Json)
    ensures
        is_merge(base, over, r),
    decreases over,
{
    match base {
        Json::Object(own) => match over {
            Json::Object(more) => Json::Object(merge_fields(own, more)),
            other => other,
        },
        _ => over,
    }
}

/// Fields with others put over them.
fn merge_fields(own: Vec<JsonField>, more: Vec<JsonField>) -> (out: Vec<JsonField>)
    ensures
        fields_merged(own@, more, out@),
    decreases more,
{
    broadcast use group_views;

    let ghost all = more@;
    let ghost kept = own@;
    let mut out = own;
    let mut rest = more;
    let mut seen: Vec<String> = Vec::new();
    while rest.len() > 0
        invariant
            all == more@,
            seen@.len() <= all.len(),
            rest@ == all.skip(seen@.len() as int),
            forall|k: int| 0 <= k < seen@.len() ==> (#[trigger] texts(seen@)[k]) == all[k].name@,
            forall|name: Seq<char>|
                !texts(seen@).contains(name) ==> #[trigger] field(out@, name) == field(kept, name),
            forall|i: int|
                0 <= i < seen@.len() && place(all, (#[trigger] all[i]).name@, 0) == i
                    ==> field_merged(
                    field(kept, all[i].name@),
                    all[i].value,
                    field(out@, all[i].name@),
                ),
        decreases rest@.len(),
    {
        let ghost n = seen@.len() as int;
        let ghost before = out@;
        let ghost told = texts(seen@);
        let f = rest.remove(0);
        assert(f == all[n]);
        assert(decreases_to!(more => more@[n]));
        let ghost name = f.name@;
        if lists(&seen, f.name.as_str()) {
            proof {
                let k = choose|k: int| 0 <= k < told.len() && told[k] == name;
                lemma_place(all, name, 0);
                assert(all[k].name@ == name);
                assert(place(all, name, 0) < n);
            }
        } else {
            match find_field(&out, f.name.as_str()) {
                Some(at) => {
                    let found = out.remove(at);
                    let value = merge(found.value, f.value);
                    let x = JsonField { name: found.name, value };
                    let ghost shown = x;
                    out.insert(at, x);
                    proof {
                        lemma_place(before, name, 0);
                        assert(out@ =~= before.update(at as int, shown));
                        assert forall|other: Seq<char>| #[trigger] field(out@, other) == if other
                            == name {
                            Some(shown.value)
                        } else {
                            field(before, other)
                        } by {
                            lemma_replaced(before, at as int, shown, other);
                        }
                    }
                },
                None => {
                    let x = JsonField { name: f.name.clone(), value: f.value };
                    let ghost shown = x;
                    out.push(x);
                    proof {
                        assert forall|other: Seq<char>| #[trigger] field(out@, other) == if other
                            == name {
                            Some(shown.value)
                        } else {
                            field(before, other)
                        } by {
                            lemma_pushed(before, shown, other);
                        }
                    }
                },
            }
        }
        seen.push(f.name);
        proof {
            assert(texts(seen@) =~= told.push(name));
            assert forall|other: Seq<char>| !texts(seen@).contains(other) implies #[trigger] field(
                out@,
                other,
            ) == field(kept, other) by {
                assert(!told.contains(other)) by {
                    if told.contains(other) {
                        let k = choose|k: int| 0 <= k < told.len() && told[k] == other;
                        assert(texts(seen@)[k] == other);
                    }
                }
                assert(texts(seen@)[n] == name);
            }
            assert forall|i: int|
                0 <= i < seen@.len() && place(all, (#[trigger] all[i]).name@, 0) == i
                implies field_merged(
                field(kept, all[i].name@),
                all[i].value,
                field(out@, all[i].name@),
            ) by {
                if i < n {
                    assert(told[i] == all[i].name@);
                    assert(told.contains(all[i].name@));
                }
            }
        }
    }
    proof {
        assert forall|name: Seq<char>| field(more@, name) is None implies #[trigger] field(
            out@,
            name,
        ) == field(kept, name) by {
            lemma_place(all, name, 0);
            if texts(seen@).contains(name) {
                let k = choose|k: int| 0 <= k < texts(seen@).len() && texts(seen@)[k] == name;
                assert(all[k].name@ == name);
            }
        }
    }
    out
}

/// What stands at a path of names in a value.
pub open spec fn at(value: Json, path: Seq<Seq<char>>) -> Option<Json>
    decreases path.len(),
{
    if path.len() == 0 {
        Some(value)
    } else {
        match field_of(value, path[0]) {
            Some(inner) => at(inner, path.skip(1)),
            None => None,
        }
    }
}

/// Whether a value says nothing of a path: objects lead on until a name is missing.
pub open spec fn silent(value: Json, path: Seq<Seq<char>>) -> bool
    decreases path.len(),
{
    path.len() > 0 && value is Object && match field_of(value, path[0]) {
        Some(inner) => silent(inner, path.skip(1)),
        None => true,
    }
}

proof fn lemma_silent(value: Json, path: Seq<Seq<char>>)
    requires
        silent(value, path),
    ensures
        at(value, path) is None,
    decreases path.len(),
{
    if let Some(inner) = field_of(value, path[0]) {
        lemma_silent(inner, path.skip(1));
    }
}

/// Merging objects merges each field that the upper one has.
proof fn lemma_fields(own: Seq<JsonField>, more: Vec<JsonField>, out: Seq<JsonField>, name: Seq<char>)
    requires
        fields_merged(own, more, out),
    ensures
        field(more@, name) is None ==> field(out, name) == field(own, name),
        field(more@, name) is Some ==> field_merged(
            field(own, name),
            field(more@, name)->0,
            field(out, name),
        ),
{
    lemma_place(more@, name, 0);
    let i = place(more@, name, 0);
    if i < more@.len() {
        assert(more@[i].name@ == name);
        assert(place(more@, more@[i].name@, 0) == i);
    }
}

/// What a value says of a path wins over what it is put over, at any depth.
pub proof fn lemma_written_wins(base: Json, over: Json, r: Json, path: Seq<Seq<char>>)
    requires
        is_merge(base, over, r),
        at(over, path) is Some,
        !(at(over, path)->0 is Object),
    ensures
        at(r, path) == at(over, path),
    decreases path.len(),
{
    if path.len() > 0 {
        match (base, over, r) {
            (Json::Object(own), Json::Object(more), Json::Object(out)) => {
                lemma_fields(own@, more, out@, path[0]);
                if field(own@, path[0]) is Some {
                    lemma_written_wins(
                        field(own@, path[0])->0,
                        field(more@, path[0])->0,
                        field(out@, path[0])->0,
                        path.skip(1),
                    );
                }
            },
            _ => {},
        }
    }
}

/// What a value says nothing of stays as it is in what it is put over, at any depth.
pub proof fn lemma_unwritten_stays(base: Json, over: Json, r: Json, path: Seq<Seq<char>>)
    requires
        is_merge(base, over, r),
        silent(over, path),
    ensures
        at(r, path) == at(base, path),
    decreases path.len(),
{
    match (base, over, r) {
        (Json::Object(own), Json::Object(more), Json::Object(out)) => {
            lemma_fields(own@, more, out@, path[0]);
            if field(more@, path[0]) is Some {
                if field(own@, path[0]) is Some {
                    lemma_unwritten_stays(
                        field(own@, path[0])->0,
                        field(more@, path[0])->0,
                        field(out@, path[0])->0,
                        path.skip(1),
                    );
                } else {
                    lemma_silent(field(more@, path[0])->0, path.skip(1));
                }
            }
        },
        _ => {
            lemma_silent(over, path);
        },
    }
}

// ---------------------------------------------------------------------------
// Baselines
// ---------------------------------------------------------------------------

/// Whether a block of a configuration travels with a project: how tests run and how they are judged.
/// Addresses, tokens, preferences and the tests themselves stay with their host.
pub open spec fn travels(name: Seq<char>) -> bool {
    name == "link_profiles"@ || name == "iperf"@ || name == "ctstraffic"@ || name == "ping"@
}

/// Whether a block of a configuration travels with a project.
pub fn does_travel(name: &str) -> (r: bool)
    ensures
        r == travels(name@),
{
    same(name, "link_profiles") || same(name, "iperf") || same(name, "ctstraffic") || same(
        name,
        "ping",
    )
}

/// The fields among the first `n` that travel with a project.
pub open spec fn traveling_to(fields: Seq<JsonField>, n: int) -> Seq<JsonField>
    decreases n,
{
    if n <= 0 {
        Seq::empty()
    } else if travels(fields[n - 1].name@) {
        traveling_to(fields, n - 1).push(fields[n - 1])
    } else {
        traveling_to(fields, n - 1)
    }
}

proof fn lemma_traveling(fields: Seq<JsonField>, n: int, name: Seq<char>)
    requires
        0 <= n <= fields.len(),
    ensures
        field(traveling_to(fields, n), name) == if travels(name) {
            field(fields.take(n), name)
        } else {
            None
        },
    decreases n,
{
    if n > 0 {
        lemma_traveling(fields, n - 1, name);
        let x = fields[n - 1];
        let before = traveling_to(fields, n - 1);
        let whole = fields.take(n - 1);
        assert(fields.take(n) =~= whole.push(x));
        lemma_added(before, x, name);
        lemma_added(whole, x, name);
    } else {
        assert(fields.take(0) =~= Seq::<JsonField>::empty());
    }
}

/// One more field stands for its name where none stood before.
proof fn lemma_added(fields: Seq<JsonField>, x: JsonField, name: Seq<char>)
    ensures
        field(fields.push(x), name) == if field(fields, name) is None && name == x.name@ {
            Some(x.value)
        } else {
            field(fields, name)
        },
{
    let after = fields.push(x);
    lemma_place(fields, name, 0);
    let p = place(fields, name, 0);
    assert forall|k: int| 0 <= k < p implies (#[trigger] after[k]).name@ != name by {
        assert(fields[k].name@ != name);
    }
    if p < fields.len() || name == x.name@ {
        lemma_is_place(after, name, 0, p);
    } else {
        lemma_is_place(after, name, 0, after.len() as int);
    }
}

/// The part of a configuration that travels with a project.
pub fn baseline_of(cfg: Json) -> (r: Json)
    ensures
        match r {
            Json::Object(out) => out@ == match cfg {
                Json::Object(fields) => traveling_to(fields@, fields@.len() as int),
                _ => Seq::empty(),
            },
            _ => false,
        },
        forall|name: Seq<char>| #[trigger]
            field_of(r, name) == if travels(name) {
                field_of(cfg, name)
            } else {
                None
            },
{
    let mut out: Vec<JsonField> = Vec::new();
    if let Json::Object(fields) = cfg {
        let ghost all = fields@;
        let ghost mut n: int = 0;
        let mut rest = fields;
        while rest.len() > 0
            invariant
                0 <= n <= all.len(),
                rest@ == all.skip(n),
                out@ == traveling_to(all, n),
            decreases rest@.len(),
        {
            let f = rest.remove(0);
            assert(f == all[n]);
            if does_travel(f.name.as_str()) {
                out.push(f);
            }
            proof {
                n = n + 1;
            }
        }
        proof {
            assert(n == all.len());
            assert(all.take(n) =~= all);
            assert forall|name: Seq<char>| #[trigger] field(out@, name) == if travels(name) {
                field(all, name)
            } else {
                None
            } by {
                lemma_traveling(all, n, name);
            }
        }
    }
    Json::Object(out)
}

/// Whether `r` is a configuration with the part of a project's that travels put over it. What the
/// project does not write, and all that stays with its host, is as it was.
pub open spec fn has_baseline(own: Json, project: Json, r: Json) -> bool {
    forall|name: Seq<char>|
        if travels(name) && field_of(project, name) is Some {
            field_merged(
                field_of(own, name),
                field_of(project, name)->0,
                #[trigger] field_of(r, name),
            )
        } else {
            field_of(r, name) == field_of(own, name)
        }
}

proof fn lemma_has_baseline(own: Json, project: Json, over: Json, r: Json)
    requires
        own is Object,
        over is Object,
        forall|name: Seq<char>| #[trigger]
            field_of(over, name) == if travels(name) {
                field_of(project, name)
            } else {
                None
            },
        is_merge(own, over, r),
    ensures
        has_baseline(own, project, r),
{
    match (own, over, r) {
        (Json::Object(fields), Json::Object(more), Json::Object(out)) => {
            assert forall|name: Seq<char>|
                if travels(name) && field_of(project, name) is Some {
                    field_merged(
                        field_of(own, name),
                        field_of(project, name)->0,
                        #[trigger] field_of(r, name),
                    )
                } else {
                    field_of(r, name) == field_of(own, name)
                } by {
                lemma_fields(fields@, more, out@, name);
                assert(field_of(over, name) == field(more@, name));
            }
        },
        _ => {},
    }
}

/// A configuration with the part of a project's that travels put over it; that part alone where the
/// configuration is no object.
pub fn with_baseline(own: Json, project: Json) -> (r: Json)
    ensures
        r is Object,
        own is Object ==> has_baseline(own, project, r),
        !(own is Object) ==> forall|name: Seq<char>| #[trigger]
            field_of(r, name) == if travels(name) {
                field_of(project, name)
            } else {
                None
            },
{
    let ghost kept = own;
    let over = baseline_of(project);
    let ghost upper = over;
    let r = merge(own, over);
    proof {
        if kept is Object {
            lemma_has_baseline(kept, project, upper, r);
        }
    }
    r
}

} // verus!
