//! The two outside crates under the trace writer: `indexmap` holds what a
//! producer wrote in its own order, `serde_json` turns it into JSON text.

use indexmap::IndexMap;
use serde_json::Value;
use vstd::prelude::*;

use crate::canonical::{keys_increase, nested_keys_increase};
use crate::json::{has_key, whole_numbers, with_member, Json, JsonView, Members};
use crate::reading::{reads_as, said, Reading};

verus! {

/// `indexmap::IndexMap`, a map that keeps the order in which keys came.
#[verifier::external_type_specification]
#[verifier::external_body]
#[verifier::reject_recursive_types(K)]
#[verifier::reject_recursive_types(V)]
#[verifier::reject_recursive_types(S)]
pub struct ExIndexMap<K, V, S>(IndexMap<K, V, S>);

/// `serde_json::Value`, a JSON value that can be serialised.
#[verifier::external_type_specification]
#[verifier::external_body]
pub struct ExValue(Value);

/// The members of an operator's map, in their order.
pub uninterp spec fn operator_members(map: IndexMap<String, Json>) -> Members;

/// The members of a map that is ready to be serialised, in their order.
pub uninterp spec fn rendered_members(map: IndexMap<String, Value>) -> Members;

/// What a `serde_json::Value` holds, the members of an object in the order in
/// which the object hands them out.
pub uninterp spec fn value_tree(value: Value) -> JsonView;

/// The compact JSON text of a value, as `serde_json::to_vec` writes it.
pub uninterp spec fn json_text(value: JsonView) -> Seq<u8>;

/// The parts of which a `serde_json::Value` is made.
pub enum ValueParts {
    Null,
    Bool(bool),
    Number(serde_json::Number),
    String(String),
    Array(Vec<Value>),
    Object(Vec<(String, Value)>),
}

/// What already built members hold.
pub open spec fn built_members(members: Seq<(String, Value)>) -> Members {
    Seq::new(members.len(), |i: int| (members[i].0@, value_tree(members[i].1)))
}

impl ValueParts {
    /// What a value made of these parts holds.
    pub open spec fn tree(self) -> JsonView {
        match self {
            ValueParts::Null => JsonView::Null,
            ValueParts::Bool(b) => JsonView::Bool(b),
            ValueParts::Number(n) => JsonView::Number(n),
            ValueParts::String(s) => JsonView::String(s@),
            ValueParts::Array(items) => JsonView::Array(
                Seq::new(items@.len(), |i: int| value_tree(items@[i])),
            ),
            ValueParts::Object(members) => JsonView::Object(built_members(members@)),
        }
    }
}

/// `IndexMap::len`: how many members the map holds.
#[verifier::external_body]
pub(crate) fn member_count(map: &IndexMap<String, Json>) -> (count: usize)
    ensures
        count == operator_members(*map).len(),
{
    map.len()
}

/// `IndexMap::get_index`: the member at a valid index. The map never holds a key
/// twice, so none of the members before it has its key.
#[verifier::external_body]
pub(crate) fn member_at(map: &IndexMap<String, Json>, index: usize) -> (member: (&String, &Json))
    requires
        index < operator_members(*map).len(),
    ensures
        operator_members(*map)[index as int] == (member.0@, member.1@),
        forall|i: int|
            0 <= i < index ==> (#[trigger] operator_members(*map)[i]).0 != member.0@,
{
    map.get_index(index).expect("a valid index")
}

/// `IndexMap::clone`: a map with the same keys in the same order, each value cloned.
/// A clone of a [`Json`] says what the value says.
#[verifier::external_body]
pub(crate) fn copied_map(map: &IndexMap<String, Json>) -> (copy: IndexMap<String, Json>)
    ensures
        operator_members(copy) == operator_members(*map),
{
    map.clone()
}

/// `IndexMap::new`: a map without members.
#[verifier::external_body]
pub(crate) fn empty_map() -> (map: IndexMap<String, Value>)
    ensures
        rendered_members(map) == Members::empty(),
{
    IndexMap::new()
}

/// `IndexMap::insert`: a key that is there already keeps its place and takes the
/// new value, and the value it had is handed back; any other key goes last.
#[verifier::external_body]
pub(crate) fn insert_member(map: &mut IndexMap<String, Value>, key: String, value: Value) -> (replaced:
    Option<Value>)
    ensures
        rendered_members(*final(map)) == with_member(
            rendered_members(*old(map)),
            key@,
            value_tree(value),
        ),
        replaced is Some <==> has_key(rendered_members(*old(map)), key@),
        replaced matches Some(before) ==> rendered_members(*old(map)).contains(
            (key@, value_tree(before)),
        ),
{
    map.insert(key, value)
}

/// The variants of `serde_json::Value`, and `serde_json::Map`'s `FromIterator`
/// for an object. Whichever map is behind `serde_json::Map`, one that sorts its
/// keys by their bytes or one that keeps the order in which they came, members
/// whose keys increase stay in their order.
#[verifier::external_body]
pub(crate) fn build_value(parts: ValueParts) -> (value: Value)
    requires
        parts matches ValueParts::Object(members) ==> keys_increase(built_members(members@)),
    ensures
        value_tree(value) == parts.tree(),
{
    match parts {
        ValueParts::Null => Value::Null,
        ValueParts::Bool(b) => Value::Bool(b),
        ValueParts::Number(n) => Value::Number(n),
        ValueParts::String(s) => Value::String(s),
        ValueParts::Array(items) => Value::Array(items),
        ValueParts::Object(members) => Value::Object(members.into_iter().collect()),
    }
}

/// `serde_json::to_vec` of a string. It cannot fail. What it writes is a JSON text of
/// the string: the string in quotes, with a quote, a backslash and every control
/// character as an escape and everything else as it stands. So no byte of the text is
/// a line feed.
#[verifier::external_body]
pub(crate) fn string_text(text: &str) -> (bytes: Vec<u8>)
    ensures
        bytes@ == json_text(JsonView::String(text@)),
        reads_as(bytes@, Reading::Text(text@)),
        !bytes@.contains(10u8),
{
    serde_json::to_vec(text).expect("a string serializes")
}

/// `serde_json::to_vec` of a map: an object with the map's members in the map's
/// order. It cannot fail, since every key is a string. What it writes is a JSON text of
/// the object, without white space, integers in decimal; so no byte of the text is a
/// line feed. What the text of a floating-point number says is left unsaid.
#[verifier::external_body]
pub(crate) fn object_text(map: &IndexMap<String, Value>) -> (bytes: Vec<u8>)
    ensures
        bytes@ == json_text(JsonView::Object(rendered_members(*map))),
        whole_numbers(JsonView::Object(rendered_members(*map))) ==> reads_as(
            bytes@,
            said(JsonView::Object(rendered_members(*map))),
        ),
        !bytes@.contains(10u8),
{
    serde_json::to_vec(map).expect("a map with string keys serializes")
}

/// A `serde_json::Value` that holds what `json` says. The keys of every object
/// must increase, so that their order survives.
pub(crate) fn to_value(json: &Json) -> (value: Value)
    requires
        nested_keys_increase(json@),
    ensures
        value_tree(value) == json@,
    decreases json,
{
    match json {
        Json::Null => build_value(ValueParts::Null),
        Json::Bool(b) => build_value(ValueParts::Bool(*b)),
        Json::Number(n) => build_value(ValueParts::Number(n.clone())),
        Json::String(s) => build_value(ValueParts::String(s.clone())),
        Json::Array(items) => {
            let mut out: Vec<Value> = Vec::new();
            let mut i: usize = 0;
            while i < items.len()
                invariant
                    *json == Json::Array(*items),
                    nested_keys_increase(json@),
                    i <= items@.len(),
                    out@.len() == i,
                    forall|j: int| 0 <= j < i ==> value_tree(#[trigger] out@[j]) == items@[j]@,
                decreases items@.len() - i,
            {
                assert(decreases_to!(*json => json->Array_0));
                assert(json@->Array_0[i as int] == items@[i as int]@);
                out.push(to_value(&items[i]));
                i += 1;
            }
            let parts = ValueParts::Array(out);
            assert(parts.tree()->Array_0 =~= json@->Array_0);
            build_value(parts)
        },
        Json::Object(object) => {
            let members = object.members();
            let mut out: Vec<(String, Value)> = Vec::new();
            let mut i: usize = 0;
            while i < members.len()
                invariant
                    *json == Json::Object(*object),
                    nested_keys_increase(json@),
                    members@ == object.entries(),
                    forall|j: int|
                        0 <= j < members@.len() ==> decreases_to!(*object => (#[trigger] members@[j]).1),
                    i <= members@.len(),
                    out@.len() == i,
                    forall|j: int|
                        0 <= j < i ==> (#[trigger] out@[j]).0@ == object@[j].0 && value_tree(
                            out@[j].1,
                        ) == object@[j].1,
                decreases members@.len() - i,
            {
                assert(decreases_to!(*json => json->Object_0));
                assert(object@[i as int] == (members@[i as int].0@, members@[i as int].1@));
                let child = to_value(&members[i].1);
                out.push((members[i].0.clone(), child));
                i += 1;
            }
            let parts = ValueParts::Object(out);
            assert(built_members(out@) =~= object@);
            build_value(parts)
        },
    }
}

/// What a value is made of is what it holds, part by part: nothing is left out, changed or
/// moved.
pub proof fn law_every_part_of_a_built_value_shows(parts: ValueParts)
    ensures
        match parts {
            ValueParts::Null => parts.tree() is Null,
            ValueParts::Bool(b) => parts.tree() == JsonView::Bool(b),
            ValueParts::Number(n) => parts.tree() == JsonView::Number(n),
            ValueParts::String(s) => parts.tree() == JsonView::String(s@),
            ValueParts::Array(items) => {
                &&& parts.tree() matches JsonView::Array(tree)
                &&& tree.len() == items@.len()
                &&& forall|i: int|
                    0 <= i < items@.len() ==> #[trigger] tree[i] == value_tree(items@[i])
            },
            ValueParts::Object(members) => {
                &&& parts.tree() matches JsonView::Object(tree)
                &&& tree.len() == members@.len()
                &&& forall|i: int|
                    0 <= i < members@.len() ==> (#[trigger] tree[i]).0 == members@[i].0@
                        && tree[i].1 == value_tree(members@[i].1)
            },
        },
{
}

} // verus!
