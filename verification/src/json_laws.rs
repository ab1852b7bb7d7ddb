//! What is said of a JSON value, and when two of them are equal.

use vstd::prelude::*;

use crate::json::{
    distinct_keys, has_key, members_view, number_int, numbers_equal, same_value, whole_numbers,
    with_member, Json, JsonView, Members,
};

verus! {

/// What is said of a value is what it holds, part by part.
pub proof fn law_every_part_of_a_value_shows(value: Json)
    ensures
        match value {
            Json::Null => value@ is Null,
            Json::Bool(b) => value@ == JsonView::Bool(b),
            Json::Number(n) => value@ == JsonView::Number(n),
            Json::String(s) => value@ == JsonView::String(s@),
            Json::Array(items) => {
                &&& value@ matches JsonView::Array(view)
                &&& view.len() == items@.len()
                &&& forall|i: int| 0 <= i < items@.len() ==> #[trigger] view[i] == items@[i]@
            },
            Json::Object(object) => {
                &&& value@ matches JsonView::Object(view)
                &&& view.len() == object.entries().len()
                &&& forall|i: int|
                    0 <= i < view.len() ==> (#[trigger] view[i]).0 == object.entries()[i].0@
                        && view[i].1 == object.entries()[i].1@
            },
        },
{
    match value {
        Json::Array(items) => {
            assert(value@ is Array);
        },
        Json::Object(object) => {
            assert(value@ == JsonView::Object(object@));
        },
        _ => {},
    }
}

/// Setting a member: under its key there is the new value and no other; every other member
/// stays where and as it was; a new key goes last.
pub proof fn law_setting_a_member(members: Members, key: Seq<char>, value: JsonView)
    requires
        distinct_keys(members),
    ensures
        ({
            let after = with_member(members, key, value);
            let known = exists|i: int| 0 <= i < members.len() && (#[trigger] members[i]).0 == key;
            &&& after.len() == members.len() + if known {
                0int
            } else {
                1int
            }
            &&& !known ==> after[members.len() as int] == (key, value)
            &&& forall|i: int|
                0 <= i < members.len() ==> #[trigger] after[i] == if members[i].0 == key {
                    (key, value)
                } else {
                    members[i]
                }
        }),
{
}

/// Two values are equal where they are of one sort and hold the same: numbers that compare
/// equal, items that are equal in their places, and under each key members that are equal,
/// whatever their order.
pub proof fn law_equality_part_by_part(a: JsonView, b: JsonView)
    ensures
        match a {
            JsonView::Null => same_value(a, b) == (b is Null),
            JsonView::Bool(x) => same_value(a, b) == (b == JsonView::Bool(x)),
            JsonView::String(x) => same_value(a, b) == (b == JsonView::String(x)),
            JsonView::Number(x) => match b {
                JsonView::Number(y) => same_value(a, b) == numbers_equal(x, y),
                _ => !same_value(a, b),
            },
            JsonView::Array(x) => match b {
                JsonView::Array(y) => same_value(a, b) == (x.len() == y.len() && forall|i: int|
                    0 <= i < x.len() ==> same_value(#[trigger] x[i], y[i])),
                _ => !same_value(a, b),
            },
            JsonView::Object(x) => match b {
                JsonView::Object(y) => same_value(a, b) ==> x.len() == y.len() && forall|i: int|
                    0 <= i < x.len() ==> #[trigger] equal_under_its_key(x, i, y),
                _ => !same_value(a, b),
            },
        },
{
    if let (JsonView::Object(x), JsonView::Object(y)) = (a, b) {
        if same_value(a, b) {
            assert forall|i: int| 0 <= i < x.len() implies #[trigger] equal_under_its_key(
                x,
                i,
                y,
            ) by {
                let member = x[i];
            }
        }
    }
}

/// Objects are equal where each member has an equal one under the same key.
pub proof fn law_objects_are_equal_by_key(x: Members, y: Members)
    requires
        x.len() == y.len(),
        forall|i: int| 0 <= i < x.len() ==> #[trigger] equal_under_its_key(x, i, y),
    ensures
        same_value(JsonView::Object(x), JsonView::Object(y)),
{
    let a = JsonView::Object(x);
    let b = JsonView::Object(y);
    assert forall|i: int| 0 <= i < x.len() implies has_key(y, (#[trigger] x[i]).0)
        && exists|j: int|
        0 <= j < y.len() && x[i].0 == (#[trigger] y[j]).0 && same_value(x[i].1, y[j].1) by {
        assert(equal_under_its_key(x, i, y));
    }
    assert(same_value(a, b));
}

/// Whether some member of `y` has the key of the member `i` of `x` and an equal value.
pub open spec fn equal_under_its_key(x: Members, i: int, y: Members) -> bool {
    exists|j: int|
        0 <= j < y.len() && x[i].0 == (#[trigger] y[j]).0 && same_value(x[i].1, y[j].1)
}

/// A value has whole numbers if and only if every number in it is an integer.
pub proof fn law_whole_numbers_part_by_part(value: JsonView)
    ensures
        whole_numbers(value) == match value {
            JsonView::Number(n) => number_int(n) is Some,
            JsonView::Array(items) => forall|i: int|
                0 <= i < items.len() ==> whole_numbers(#[trigger] items[i]),
            JsonView::Object(members) => forall|i: int|
                0 <= i < members.len() ==> whole_numbers((#[trigger] members[i]).1),
            _ => true,
        },
{
}

/// A key is there if and only if some member has it; keys are distinct if and only if no
/// two members share one.
pub proof fn law_keys_are_those_of_the_members(members: Members, key: Seq<char>)
    ensures
        has_key(members, key) == (exists|i: int|
            0 <= i < members.len() && (#[trigger] members[i]).0 == key),
        distinct_keys(members) == (forall|i: int, j: int|
            0 <= i < members.len() && 0 <= j < members.len() && (#[trigger] members[i]).0 == (
            #[trigger] members[j]).0 ==> i == j),
{
}

/// What stored members say is what they hold, in their order.
pub proof fn law_every_stored_member_shows(stored: Seq<(String, Json)>)
    ensures
        members_view(stored).len() == stored.len(),
        forall|i: int|
            0 <= i < stored.len() ==> (#[trigger] members_view(stored)[i]).0 == stored[i].0@
                && members_view(stored)[i].1 == stored[i].1@,
{
}

} // verus!
