//! JSON values as the trace writer reads them.

use vstd::prelude::*;
use vstd::std_specs::cmp::PartialEqSpecImpl;

verus! {

/// `serde_json::Number`, carried from a producer to the serialiser unread.
#[verifier::external_type_specification]
#[verifier::external_body]
pub struct ExNumber(serde_json::Number);

/// `serde_json::Number` derives `Clone` over a field that is copied: the clone is the number.
pub assume_specification[ <serde_json::Number as Clone>::clone ](
    number: &serde_json::Number,
) -> (copy: serde_json::Number)
    ensures
        copy == *number,
;

/// The integer that a `serde_json::Number` holds; none where it holds a floating-point
/// number.
pub uninterp spec fn number_int(number: serde_json::Number) -> Option<int>;

/// Whether two numbers compare equal, as `serde_json::Number`'s `==` says.
pub uninterp spec fn numbers_equal(a: serde_json::Number, b: serde_json::Number) -> bool;

/// `==` of `serde_json::Number`. It depends on the two numbers alone, and a number is
/// equal to itself, since none is a NaN. An integer is equal to the same integer and to
/// no floating-point number. Floating-point numbers that differ can compare equal: the
/// two zeros do.
#[verifier::external_body]
fn same_number(a: &serde_json::Number, b: &serde_json::Number) -> (same: bool)
    ensures
        same == numbers_equal(*a, *b),
        *a == *b ==> same,
        number_int(*a) is Some || number_int(*b) is Some ==> same == (number_int(*a) == number_int(
            *b,
        )),
{
    a == b
}

/// One JSON value.
///
/// Two values are equal where they hold the same; the order of an object's members
/// plays no part.
#[derive(Debug)]
pub enum Json {
    Null,
    Bool(bool),
    Number(serde_json::Number),
    String(String),
    Array(Vec<Json>),
    Object(JsonObject),
}

/// The members of a JSON object, in order. No two of them share a key.
#[derive(Debug)]
pub struct JsonObject {
    members: Vec<(String, Json)>,
}

/// What a [`Json`] says, apart from how it is stored.
pub enum JsonView {
    Null,
    Bool(bool),
    Number(serde_json::Number),
    String(Seq<char>),
    Array(Seq<JsonView>),
    Object(Seq<(Seq<char>, JsonView)>),
}

/// Members of an object: keys with what they hold, in order.
pub type Members = Seq<(Seq<char>, JsonView)>;

/// What stored members say.
pub open spec fn members_view(stored: Seq<(String, Json)>) -> Members {
    Seq::new(stored.len(), |i: int| (stored[i].0@, stored[i].1@))
}

/// Whether some member of `members` is filed under `key`.
pub open spec fn has_key(members: Members, key: Seq<char>) -> bool {
    exists|i: int| 0 <= i < members.len() && (#[trigger] members[i]).0 == key
}

/// Whether no key is used twice.
pub open spec fn distinct_keys(members: Members) -> bool {
    forall|i: int, j: int|
        0 <= i < j < members.len() ==> (#[trigger] members[i]).0 != (#[trigger] members[j]).0
}

/// `members` after `key` has been set to `value`: in place where the key was
/// there already, at the end where it was not.
pub open spec fn with_member(members: Members, key: Seq<char>, value: JsonView) -> Members {
    if has_key(members, key) {
        Seq::new(
            members.len(),
            |i: int|
                if members[i].0 == key {
                    (key, value)
                } else {
                    members[i]
                },
        )
    } else {
        members.push((key, value))
    }
}

/// Whether no number in `value`, at any depth, is a floating-point number.
pub open spec fn whole_numbers(value: JsonView) -> bool
    decreases value,
{
    match value {
        JsonView::Number(n) => number_int(n) is Some,
        JsonView::Array(items) => forall|i: int|
            0 <= i < items.len() ==> whole_numbers(#[trigger] items[i]),
        JsonView::Object(members) => forall|i: int|
            0 <= i < members.len() ==> whole_numbers((#[trigger] members[i]).1),
        _ => true,
    }
}

/// Whether two values hold the same, the order of an object's members aside.
pub open spec fn same_value(a: JsonView, b: JsonView) -> bool
    decreases a,
{
    match (a, b) {
        (JsonView::Number(x), JsonView::Number(y)) => numbers_equal(x, y),
        (JsonView::Array(x), JsonView::Array(y)) => x.len() == y.len() && forall|i: int|
            0 <= i < x.len() ==> same_value(#[trigger] x[i], y[i]),
        (JsonView::Object(x), JsonView::Object(y)) => x.len() == y.len() && forall|i: int|
            0 <= i < x.len() ==> has_key(y, (#[trigger] x[i]).0) && exists|j: int|
                0 <= j < y.len() && x[i].0 == (#[trigger] y[j]).0 && same_value(x[i].1, y[j].1),
        _ => a == b,
    }
}

impl Json {
    pub open spec fn view(&self) -> JsonView
        decreases self,
    {
        match self {
            Json::Null => JsonView::Null,
            Json::Bool(b) => JsonView::Bool(*b),
            Json::Number(n) => JsonView::Number(*n),
            Json::String(s) => JsonView::String(s@),
            Json::Array(items) => JsonView::Array(
                Seq::new(
                    items@.len(),
                    |i: int|
                        if 0 <= i < items@.len() {
                            items@[i].view()
                        } else {
                            JsonView::Null
                        },
                ),
            ),
            Json::Object(object) => JsonView::Object(object.view()),
        }
    }
}

impl JsonObject {
    /// The members as they are stored.
    pub closed spec fn entries(&self) -> Seq<(String, Json)> {
        self.members@
    }

    pub open spec fn view(&self) -> Members
        decreases self,
    {
        Seq::new(
            self.entries().len(),
            |i: int|
                if 0 <= i < self.entries().len() {
                    (self.entries()[i].0@, self.entries()[i].1.view())
                } else {
                    (Seq::empty(), JsonView::Null)
                },
        )
    }

    #[verifier::type_invariant]
    spec fn keys_are_distinct(&self) -> bool {
        distinct_keys(self.view())
    }

    /// An object without members.
    pub fn new() -> (object: JsonObject)
        ensures
            object@ == Members::empty(),
    {
        JsonObject { members: Vec::new() }
    }

    /// The members, in order.
    pub fn members(&self) -> (members: &Vec<(String, Json)>)
        ensures
            members@ == self.entries(),
            distinct_keys(self@),
            forall|i: int|
                0 <= i < members@.len() ==> decreases_to!(*self => (#[trigger] members@[i]).1),
    {
        proof {
            use_type_invariant(self);
        }
        &self.members
    }

    /// An object of the given members, whose keys are known to differ.
    pub(crate) fn of_distinct(members: Vec<(String, Json)>) -> (object: JsonObject)
        requires
            distinct_keys(members_view(members@)),
        ensures
            object@ == members_view(members@),
    {
        proof {
            assert((JsonObject { members })@ =~= members_view(members@));
        }
        JsonObject { members }
    }

    /// Set `key` to `value` and hand back what it held before.
    pub fn insert(&mut self, key: String, value: Json) -> (replaced: Option<Json>)
        ensures
            final(self)@ == with_member(old(self)@, key@, value@),
            replaced is Some <==> has_key(old(self)@, key@),
            replaced matches Some(before) ==> old(self)@.contains((key@, before@)),
    {
        proof {
            use_type_invariant(&*self);
        }
        let mut members: Vec<(String, Json)> = Vec::new();
        std::mem::swap(&mut members, &mut self.members);
        let ghost before = old(self)@;
        let mut i: usize = 0;
        while i < members.len() && !(members[i].0 == key)
            invariant
                i <= members.len(),
                distinct_keys(before),
                members@ == old(self).entries(),
                before == old(self)@,
                forall|j: int| 0 <= j < i ==> (#[trigger] before[j]).0 != key@,
            decreases members.len() - i,
        {
            i += 1;
        }
        if i < members.len() {
            let ghost name = key@;
            assert(before[i as int].0 == name);
            let (_, held) = members.remove(i);
            members.insert(i, (key, value));
            proof {
                let after = JsonObject { members };
                assert(after@ =~= with_member(before, name, value@));
                lemma_with_member_distinct(before, name, value@);
                assert(before[i as int] == (name, held@));
            }
            self.members = members;
            Some(held)
        } else {
            let ghost name = key@;
            members.push((key, value));
            proof {
                let after = JsonObject { members };
                assert(after@ =~= with_member(before, name, value@));
                lemma_with_member_distinct(before, name, value@);
            }
            self.members = members;
            None
        }
    }
}

/// Whether two values hold the same.
fn same_json(a: &Json, b: &Json) -> (same: bool)
    ensures
        same == same_value(a@, b@),
    decreases a,
{
    match (a, b) {
        (Json::Null, Json::Null) => true,
        (Json::Bool(x), Json::Bool(y)) => *x == *y,
        (Json::Number(x), Json::Number(y)) => same_number(x, y),
        (Json::String(x), Json::String(y)) => *x == *y,
        (Json::Array(x), Json::Array(y)) => {
            if x.len() != y.len() {
                return false;
            }
            let mut i: usize = 0;
            while i < x.len()
                invariant
                    *a == Json::Array(*x),
                    *b == Json::Array(*y),
                    x@.len() == y@.len(),
                    i <= x@.len(),
                    forall|k: int|
                        0 <= k < i ==> same_value(#[trigger] a@->Array_0[k], b@->Array_0[k]),
                decreases x@.len() - i,
            {
                assert(decreases_to!(*a => a->Array_0));
                assert(a@->Array_0[i as int] == x@[i as int]@);
                assert(b@->Array_0[i as int] == y@[i as int]@);
                if !same_json(&x[i], &y[i]) {
                    return false;
                }
                i += 1;
            }
            assert(same_value(a@, b@));
            true
        },
        (Json::Object(x), Json::Object(y)) => {
            assert(decreases_to!(*a => a->Object_0));
            same_members(x, y)
        },
        _ => false,
    }
}

/// Whether two objects hold the same, the order of their members aside.
fn same_members(a: &JsonObject, b: &JsonObject) -> (same: bool)
    ensures
        same == same_value(JsonView::Object(a@), JsonView::Object(b@)),
    decreases a,
{
    let left = a.members();
    let right = b.members();
    let ghost x = a@;
    let ghost y = b@;
    if left.len() != right.len() {
        return false;
    }
    let mut i: usize = 0;
    while i < left.len()
        invariant
            x == a@,
            y == b@,
            left@ == a.entries(),
            right@ == b.entries(),
            left@.len() == right@.len(),
            distinct_keys(y),
            forall|k: int|
                0 <= k < left@.len() ==> decreases_to!(*a => (#[trigger] left@[k]).1),
            i <= left@.len(),
            forall|k: int|
                0 <= k < i ==> has_key(y, (#[trigger] x[k]).0) && exists|j: int|
                    0 <= j < y.len() && x[k].0 == (#[trigger] y[j]).0 && same_value(x[k].1, y[j].1),
        decreases left@.len() - i,
    {
        let ghost member = x[i as int];
        assert(member == (left@[i as int].0@, left@[i as int].1@));
        let mut j: usize = 0;
        while j < right.len() && !(right[j].0 == left[i].0)
            invariant
                y == b@,
                right@ == b.entries(),
                i < left@.len(),
                member.0 == left@[i as int].0@,
                j <= right@.len(),
                forall|k: int| 0 <= k < j ==> (#[trigger] y[k]).0 != member.0,
            decreases right@.len() - j,
        {
            assert(y[j as int].0 == right@[j as int].0@);
            j += 1;
        }
        if j == right.len() {
            assert(!same_value(JsonView::Object(x), JsonView::Object(y)));
            return false;
        }
        assert(y[j as int] == (right@[j as int].0@, right@[j as int].1@));
        if !same_json(&left[i].1, &right[j].1) {
            assert forall|k: int| 0 <= k < y.len() && k != j implies (#[trigger] y[k]).0
                != member.0 by {
                assert(y[k].0 != y[j as int].0);
            }
            assert(!same_value(JsonView::Object(x), JsonView::Object(y)));
            return false;
        }
        i += 1;
    }
    assert(x.len() == left@.len() && y.len() == right@.len());
    assert(same_value(JsonView::Object(x), JsonView::Object(y)));
    true
}

impl PartialEq for Json {
    fn eq(&self, other: &Json) -> (same: bool) {
        same_json(self, other)
    }
}

impl PartialEqSpecImpl for Json {
    open spec fn obeys_eq_spec() -> bool {
        true
    }

    open spec fn eq_spec(&self, other: &Json) -> bool {
        same_value(self@, other@)
    }
}

impl PartialEq for JsonObject {
    fn eq(&self, other: &JsonObject) -> (same: bool) {
        same_members(self, other)
    }
}

impl PartialEqSpecImpl for JsonObject {
    open spec fn obeys_eq_spec() -> bool {
        true
    }

    open spec fn eq_spec(&self, other: &JsonObject) -> bool {
        same_value(JsonView::Object(self@), JsonView::Object(other@))
    }
}

/// A value that says what `value` says.
fn copied(value: &Json) -> (copy: Json)
    ensures
        copy@ == value@,
    decreases value,
{
    match value {
        Json::Null => Json::Null,
        Json::Bool(b) => Json::Bool(*b),
        Json::Number(n) => Json::Number(n.clone()),
        Json::String(s) => Json::String(s.clone()),
        Json::Array(items) => {
            let mut out: Vec<Json> = Vec::new();
            let mut i: usize = 0;
            while i < items.len()
                invariant
                    *value == Json::Array(*items),
                    i <= items@.len(),
                    out@.len() == i,
                    forall|j: int| 0 <= j < i ==> (#[trigger] out@[j])@ == items@[j]@,
                decreases items@.len() - i,
            {
                assert(decreases_to!(*value => value->Array_0));
                out.push(copied(&items[i]));
                i += 1;
            }
            let copy = Json::Array(out);
            assert(copy@->Array_0 =~= value@->Array_0);
            copy
        },
        Json::Object(object) => {
            assert(decreases_to!(*value => value->Object_0));
            Json::Object(copied_object(object))
        },
    }
}

/// An object that says what `object` says.
fn copied_object(object: &JsonObject) -> (copy: JsonObject)
    ensures
        copy@ == object@,
    decreases object,
{
    let members = object.members();
    let mut out: Vec<(String, Json)> = Vec::new();
    let mut i: usize = 0;
    while i < members.len()
        invariant
            members@ == object.entries(),
            forall|j: int|
                0 <= j < members@.len() ==> decreases_to!(*object => (#[trigger] members@[j]).1),
            i <= members@.len(),
            out@.len() == i,
            forall|j: int|
                0 <= j < i ==> (#[trigger] out@[j]).0@ == members@[j].0@ && out@[j].1@
                    == members@[j].1@,
        decreases members@.len() - i,
    {
        out.push((members[i].0.clone(), copied(&members[i].1)));
        i += 1;
    }
    assert(members_view(out@) =~= object@);
    JsonObject::of_distinct(out)
}

impl Clone for Json {
    fn clone(&self) -> (copy: Json)
        ensures
            copy@ == self@,
    {
        copied(self)
    }
}

impl Clone for JsonObject {
    fn clone(&self) -> (copy: JsonObject)
        ensures
            copy@ == self@,
    {
        copied_object(self)
    }
}

/// Setting a member keeps the keys distinct.
pub proof fn lemma_with_member_distinct(members: Members, key: Seq<char>, value: JsonView)
    requires
        distinct_keys(members),
    ensures
        distinct_keys(with_member(members, key, value)),
{
    let after = with_member(members, key, value);
    assert forall|i: int, j: int| 0 <= i < j < after.len() implies (#[trigger] after[i]).0 != (
    #[trigger] after[j]).0 by {
        if has_key(members, key) {
            assert(members[i].0 != members[j].0);
        } else if j < members.len() {
            assert(members[i].0 != members[j].0);
        } else {
            assert(members[i].0 != key);
        }
    }
}

} // verus!
