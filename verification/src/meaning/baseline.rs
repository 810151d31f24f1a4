//! What of a configuration travels with a project.
use vstd::prelude::*;
use vstd::string::*;
use crate::baseline::{
    at, field, field_of, has_baseline, is_merge, lemma_unwritten_stays, lemma_written_wins, place,
    silent, traveling_to, travels, Json, JsonField,
};

verus! {

/// What travels is how links are profiled and how the tools run, and nothing else: no address, no
/// token, no test.
pub proof fn lemma_only_settings_travel(name: Seq<char>)
    ensures
        travels("link_profiles"@),
        travels("iperf"@),
        travels("ctstraffic"@),
        travels("ping"@),
        name != "link_profiles"@ && name != "iperf"@ && name != "ctstraffic"@ && name != "ping"@
            ==> !travels(name),
        !(travels("agent_token"@)),
        !(travels("agent_host"@)),
        !(travels("tests"@)),
{
    reveal_strlit("link_profiles");
    reveal_strlit("iperf");
    reveal_strlit("ctstraffic");
    reveal_strlit("ping");
    reveal_strlit("agent_token");
    reveal_strlit("agent_host");
    reveal_strlit("tests");
    assert("agent_token"@.len() == 11 && "agent_token"@[0] == 'a');
    assert("agent_host"@.len() == 10 && "agent_host"@[0] == 'a');
    assert("tests"@.len() == 5 && "tests"@[0] == 't');
    assert("iperf"@[0] == 'i' && "ctstraffic"@[0] == 'c' && "link_profiles"@[0] == 'l'
        && "ping"@[0] == 'p');
}

/// The first field of a name is the one that counts.
pub proof fn lemma_first_field_counts(fields: Seq<JsonField>, name: Seq<char>, i: int)
    requires
        0 <= i <= fields.len(),
        forall|k: int| 0 <= k < i ==> (#[trigger] fields[k]).name@ != name,
    ensures
        i < fields.len() && fields[i].name@ == name ==> field(fields, name) == Some(
            fields[i].value,
        ),
        i == fields.len() ==> field(fields, name) is None,
{
    lemma_passed_over(fields, name, 0, i);
}

proof fn lemma_passed_over(fields: Seq<JsonField>, name: Seq<char>, i: int, k: int)
    requires
        0 <= i <= k <= fields.len(),
        forall|j: int| i <= j < k ==> (#[trigger] fields[j]).name@ != name,
    ensures
        place(fields, name, i) == place(fields, name, k),
    decreases k - i,
{
    if i < k {
        assert(fields[i].name@ != name);
        lemma_passed_over(fields, name, i + 1, k);
    }
}

/// The fields that travel stay, in their order, and no others.
pub proof fn lemma_traveling_fields_stay(fields: Seq<JsonField>, n: int)
    requires
        0 < n <= fields.len(),
    ensures
        traveling_to(fields, 0).len() == 0,
        travels(fields[n - 1].name@) ==> traveling_to(fields, n) == traveling_to(
            fields,
            n - 1,
        ).push(fields[n - 1]),
        !travels(fields[n - 1].name@) ==> traveling_to(fields, n) == traveling_to(fields, n - 1),
{
}

/// A project's settings are put over a host's own: what the project writes is read, what it does not
/// write stays, and whatever does not travel stays as it is.
pub proof fn lemma_project_is_put_over_the_own(
    own: Json,
    project: Json,
    r: Json,
    name: Seq<char>,
    path: Seq<Seq<char>>,
)
    requires
        has_baseline(own, project, r),
    ensures
        !travels(name) ==> field_of(r, name) == field_of(own, name),
        field_of(project, name) is None ==> field_of(r, name) == field_of(own, name),
        travels(name) && field_of(project, name) is Some ==> {
            let over = field_of(project, name)->0;
            &&& field_of(r, name) is Some
            &&& field_of(own, name) is None ==> field_of(r, name) == Some(over)
            &&& field_of(own, name) is Some ==> is_merge(
                field_of(own, name)->0,
                over,
                field_of(r, name)->0,
            )
            &&& field_of(own, name) is Some && silent(over, path) ==> at(
                field_of(r, name)->0,
                path,
            ) == at(field_of(own, name)->0, path)
            &&& at(over, path) is Some && !(at(over, path)->0 is Object) ==> at(
                field_of(r, name)->0,
                path,
            ) == at(over, path)
        },
{
    let merged = field_of(r, name);
    if travels(name) && field_of(project, name) is Some && field_of(own, name) is Some {
        let over = field_of(project, name)->0;
        if silent(over, path) {
            lemma_unwritten_stays(field_of(own, name)->0, over, merged->0, path);
        }
        if at(over, path) is Some && !(at(over, path)->0 is Object) {
            lemma_written_wins(field_of(own, name)->0, over, merged->0, path);
        }
    }
}

} // verus!
