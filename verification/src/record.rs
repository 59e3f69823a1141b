//! Records of named fields as JSON objects.

use vstd::prelude::*;

use crate::json::{list_model, member_views, object_model, Json, JsonView};
use crate::text::same_text;

verus! {

/// The model of an optional value.
pub open spec fn json_option(value: Option<Json>) -> Option<JsonView> {
    match value {
        Some(json) => Some(json@),
        None => None,
    }
}

/// The model of an optional reference to a value.
pub open spec fn field_view(value: Option<&Json>) -> Option<JsonView> {
    match value {
        Some(json) => Some(json@),
        None => None,
    }
}

/// The texts of a list of names.
pub open spec fn name_views(names: Seq<&str>) -> Seq<Seq<char>> {
    names.map_values(|name: &str| name@)
}

/// The members of a record: those of its fields that have a value, in their order.
pub open spec fn present(names: Seq<Seq<char>>, values: Seq<Option<JsonView>>) -> Seq<
    (Seq<char>, JsonView),
>
    decreases names.len(),
{
    if names.len() == 0 {
        Seq::empty()
    } else {
        let others = present(names.drop_last(), values.drop_last());
        match values.last() {
            Some(value) => others.push((names.last(), value)),
            None => others,
        }
    }
}

/// The number of members of a name.
pub open spec fn occurrences(members: Seq<(Seq<char>, JsonView)>, name: Seq<char>) -> nat
    decreases members.len(),
{
    if members.len() == 0 {
        0
    } else {
        occurrences(members.drop_last(), name) + if members.last().0 == name {
            1nat
        } else {
            0nat
        }
    }
}

/// The value of the last member of a name.
pub open spec fn member_named(members: Seq<(Seq<char>, JsonView)>, name: Seq<char>) -> Option<
    JsonView,
>
    decreases members.len(),
{
    if members.len() == 0 {
        None
    } else if members.last().0 == name {
        Some(members.last().1)
    } else {
        member_named(members.drop_last(), name)
    }
}

/// Whether a value can be read as a record of the given fields: it is an object in which none of
/// them is repeated, or an array of no more values than there are fields.
pub open spec fn is_record(value: JsonView, names: Seq<Seq<char>>) -> bool {
    match value {
        JsonView::Object(members) => forall|i: int|
            0 <= i < names.len() ==> occurrences(members, #[trigger] names[i]) <= 1,
        JsonView::List(items) => items.len() <= names.len(),
        _ => false,
    }
}

/// The value of a field of a record, which an object names and an array has in its place.
pub open spec fn field_at(value: JsonView, name: Seq<char>, at: int) -> Option<JsonView> {
    match value {
        JsonView::Object(members) => member_named(members, name),
        JsonView::List(items) => if 0 <= at < items.len() {
            Some(items[at])
        } else {
            None
        },
        _ => None,
    }
}

/// A name that no field of a record has is no member of it.
proof fn absent_name(names: Seq<Seq<char>>, values: Seq<Option<JsonView>>, name: Seq<char>)
    requires
        names.len() == values.len(),
        !names.contains(name),
    ensures
        occurrences(present(names, values), name) == 0,
        member_named(present(names, values), name) is None,
    decreases names.len(),
{
    if names.len() > 0 {
        absent_name(names.drop_last(), values.drop_last(), name);
        let others = present(names.drop_last(), values.drop_last());
        if let Some(value) = values.last() {
            assert(others.push((names.last(), value)).drop_last() =~= others);
        }
    }
}

/// A record of differently named fields gives back the value of each.
pub proof fn record_gives_back(names: Seq<Seq<char>>, values: Seq<Option<JsonView>>, at: int)
    requires
        names.len() == values.len(),
        names.no_duplicates(),
        0 <= at < names.len(),
    ensures
        occurrences(present(names, values), names[at]) <= 1,
        member_named(present(names, values), names[at]) == values[at],
    decreases names.len(),
{
    let init = names.drop_last();
    let others = present(init, values.drop_last());
    if let Some(value) = values.last() {
        assert(others.push((names.last(), value)).drop_last() =~= others);
    }
    if at == names.len() - 1 {
        absent_name(init, values.drop_last(), names[at]);
    } else {
        record_gives_back(init, values.drop_last(), at);
    }
}

/// The JSON object of a record.
pub fn record_json(names: &[&str], values: Vec<Option<Json>>) -> (r: Json)
    requires
        names@.len() == values@.len(),
    ensures
        r@ == JsonView::Object(
            present(name_views(names@), values@.map_values(|v: Option<Json>| json_option(v))),
        ),
{
    let ghost all = values@.map_values(|v: Option<Json>| json_option(v));
    let ghost called = name_views(names@);
    let mut rest = values;
    let mut members: Vec<(String, Json)> = Vec::new();
    let mut i: usize = 0;
    while i < names.len()
        invariant
            i <= names@.len() == rest@.len(),
            all.len() == rest@.len(),
            called == name_views(names@),
            forall|k: int| i <= k < all.len() ==> json_option(rest@[k]) == #[trigger] all[k],
            member_views(members@) == present(called.take(i as int), all.take(i as int)),
        decreases names@.len() - i,
    {
        proof {
            assert(called.take(i + 1).drop_last() =~= called.take(i as int));
            assert(all.take(i + 1).drop_last() =~= all.take(i as int));
        }
        let value = rest[i].take();
        if let Some(json) = value {
            members.push((names[i].to_owned(), json));
        }
        i += 1;
    }
    proof {
        assert(called.take(names@.len() as int) =~= called);
        assert(all.take(names@.len() as int) =~= all);
        object_model(members);
    }
    Json::Object(members)
}

/// Whether more than one member has a name.
fn is_repeated(members: &Vec<(String, Json)>, name: &str) -> (r: bool)
    ensures
        r == (occurrences(member_views(members@), name@) > 1),
{
    let ghost all = member_views(members@);
    let mut found: bool = false;
    let mut i: usize = 0;
    while i < members.len()
        invariant
            i <= members@.len(),
            all == member_views(members@),
            occurrences(all.take(i as int), name@) == if found {
                1nat
            } else {
                0nat
            },
        decreases members@.len() - i,
    {
        assert(all.take(i + 1).drop_last() =~= all.take(i as int));
        if same_text(members[i].0.as_str(), name) {
            if found {
                proof {
                    more_members_more_occurrences(all, name@, i + 1);
                }
                return true;
            }
            found = true;
        }
        i += 1;
    }
    assert(all.take(members@.len() as int) =~= all);
    false
}

/// A name occurs no less often in all members than in the first of them.
proof fn more_members_more_occurrences(
    members: Seq<(Seq<char>, JsonView)>,
    name: Seq<char>,
    count: int,
)
    requires
        0 <= count <= members.len(),
    ensures
        occurrences(members.take(count), name) <= occurrences(members, name),
    decreases members.len() - count,
{
    if count < members.len() {
        more_members_more_occurrences(members, name, count + 1);
        assert(members.take(count + 1).drop_last() =~= members.take(count));
    } else {
        assert(members.take(count) =~= members);
    }
}

/// Whether a value can be read as a record of the given fields.
pub fn can_be_record(value: &Json, names: &[&str]) -> (r: bool)
    ensures
        r == is_record(value@, name_views(names@)),
{
    match value {
        Json::Object(members) => {
            let ghost called = name_views(names@);
            proof {
                object_model(*members);
            }
            let mut i: usize = 0;
            while i < names.len()
                invariant
                    i <= names@.len(),
                    called == name_views(names@),
                    value@ == JsonView::Object(member_views(members@)),
                    forall|k: int|
                        0 <= k < i ==> occurrences(member_views(members@), #[trigger] called[k])
                            <= 1,
                decreases names@.len() - i,
            {
                assert(called[i as int] == names@[i as int]@);
                if is_repeated(members, names[i]) {
                    return false;
                }
                i += 1;
            }
            true
        },
        Json::List(items) => {
            proof {
                list_model(*items);
            }
            items.len() <= names.len()
        },
        _ => false,
    }
}

/// The value of a field of a record.
pub fn field<'a>(value: &'a Json, name: &str, at: usize) -> (r: Option<&'a Json>)
    ensures
        field_view(r) == field_at(value@, name@, at as int),
{
    match value {
        Json::Object(members) => {
            let ghost all = member_views(members@);
            proof {
                object_model(*members);
                assert(all.take(members@.len() as int) =~= all);
            }
            let mut i: usize = members.len();
            while i > 0
                invariant
                    i <= members@.len(),
                    all == member_views(members@),
                    member_named(all, name@) == member_named(all.take(i as int), name@),
                    value@ == JsonView::Object(all),
                decreases i,
            {
                assert(all.take(i as int).drop_last() =~= all.take(i - 1));
                i -= 1;
                if same_text(members[i].0.as_str(), name) {
                    return Some(&members[i].1);
                }
            }
            None
        },
        Json::List(items) => {
            proof {
                list_model(*items);
            }
            if at < items.len() {
                Some(&items[at])
            } else {
                None
            }
        },
        _ => None,
    }
}

} // verus!
