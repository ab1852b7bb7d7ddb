//! One order for the keys of nested objects.
//!
//! Keys are sorted by their UTF-8 bytes at every depth, so the order in which
//! a nested object was built never reaches the bytes that are written.

use vstd::prelude::*;
use vstd::utf8::encode_utf8;

use crate::canonical_laws::law_nested_keys_are_sorted;
use crate::json::{distinct_keys, members_view, Json, JsonObject, JsonView, Members};

verus! {

/// Lexicographic order of byte strings: `a` comes no later than `b`.
pub open spec fn bytes_le(a: Seq<u8>, b: Seq<u8>) -> bool
    decreases a.len(),
{
    if a.len() == 0 {
        true
    } else if b.len() == 0 {
        false
    } else if a[0] != b[0] {
        a[0] < b[0]
    } else {
        bytes_le(a.drop_first(), b.drop_first())
    }
}

/// Keys are ordered by their UTF-8 bytes.
pub open spec fn key_le(a: Seq<char>, b: Seq<char>) -> bool {
    bytes_le(encode_utf8(a), encode_utf8(b))
}

/// Whether the keys of `members` strictly increase.
pub open spec fn keys_increase(members: Members) -> bool {
    forall|i: int, j: int|
        0 <= i < j < members.len() ==> key_le((#[trigger] members[i]).0, (#[trigger] members[j]).0)
            && members[i].0 != members[j].0
}

/// `sorted` with `member` put behind every member whose key is not greater.
pub open spec fn placed(sorted: Members, member: (Seq<char>, JsonView)) -> Members
    decreases sorted.len(),
{
    if sorted.len() == 0 || key_le(sorted.last().0, member.0) {
        sorted.push(member)
    } else {
        placed(sorted.drop_last(), member).push(sorted.last())
    }
}

/// `members` sorted by key.
pub open spec fn by_key(members: Members) -> Members
    decreases members.len(),
{
    if members.len() == 0 {
        members
    } else {
        placed(by_key(members.drop_last()), members.last())
    }
}

/// `value` with the members of every object in it sorted by key. Arrays keep
/// their order.
pub open spec fn canonical(value: JsonView) -> JsonView
    decreases value,
{
    match value {
        JsonView::Array(items) => JsonView::Array(
            Seq::new(
                items.len(),
                |i: int|
                    if 0 <= i < items.len() {
                        canonical(items[i])
                    } else {
                        JsonView::Null
                    },
            ),
        ),
        JsonView::Object(members) => JsonView::Object(by_key(canonical_members(members))),
        _ => value,
    }
}

/// `members` in their own order, each with its value made canonical.
pub open spec fn canonical_members(members: Members) -> Members
    decreases members,
{
    Seq::new(
        members.len(),
        |i: int|
            if 0 <= i < members.len() {
                (members[i].0, canonical(members[i].1))
            } else {
                (Seq::empty(), JsonView::Null)
            },
    )
}

/// Whether no object in `value`, at any depth, uses a key twice.
pub open spec fn well_formed(value: JsonView) -> bool
    decreases value,
{
    match value {
        JsonView::Array(items) => forall|i: int|
            0 <= i < items.len() ==> well_formed(#[trigger] items[i]),
        JsonView::Object(members) => distinct_keys(members) && forall|i: int|
            0 <= i < members.len() ==> well_formed((#[trigger] members[i]).1),
        _ => true,
    }
}

/// Whether the keys of every object in `value`, at any depth, increase.
pub open spec fn nested_keys_increase(value: JsonView) -> bool
    decreases value,
{
    match value {
        JsonView::Array(items) => forall|i: int|
            0 <= i < items.len() ==> nested_keys_increase(#[trigger] items[i]),
        JsonView::Object(members) => keys_increase(members) && forall|i: int|
            0 <= i < members.len() ==> nested_keys_increase((#[trigger] members[i]).1),
        _ => true,
    }
}

/// Whether `a` comes no later than `b` in the order of keys.
fn key_at_most(a: &str, b: &str) -> (at_most: bool)
    ensures
        at_most == key_le(a@, b@),
{
    let left = a.as_bytes();
    let right = b.as_bytes();
    let mut i: usize = 0;
    assert(left@.skip(0) =~= left@ && right@.skip(0) =~= right@);
    while i < left.len() && i < right.len()
        invariant
            left@ == encode_utf8(a@),
            right@ == encode_utf8(b@),
            i <= left@.len(),
            i <= right@.len(),
            key_le(a@, b@) == bytes_le(left@.skip(i as int), right@.skip(i as int)),
        decreases left@.len() - i,
    {
        let ghost rest_left = left@.skip(i as int);
        let ghost rest_right = right@.skip(i as int);
        if left[i] != right[i] {
            return left[i] < right[i];
        }
        assert(rest_left.drop_first() =~= left@.skip(i + 1));
        assert(rest_right.drop_first() =~= right@.skip(i + 1));
        i += 1;
    }
    i >= left.len()
}

/// Put a member behind every member of `sorted` whose key is not greater.
fn place(sorted: &mut Vec<(String, Json)>, key: String, value: Json)
    ensures
        members_view(final(sorted)@) == placed(members_view(old(sorted)@), (key@, value@)),
{
    let ghost before = members_view(sorted@);
    let ghost member = (key@, value@);
    let mut at: usize = sorted.len();
    assert(before.take(at as int) =~= before);
    assert(placed(before, member) =~= placed(before.take(at as int), member) + before.skip(at as int));
    while at > 0 && !key_at_most(sorted[at - 1].0.as_str(), key.as_str())
        invariant
            at <= sorted@.len(),
            before == members_view(sorted@),
            member == (key@, value@),
            placed(before, member) == placed(before.take(at as int), member) + before.skip(
                at as int,
            ),
        decreases at,
    {
        proof {
            let kept = before.take(at as int);
            assert(kept.last() == before[at - 1]);
            assert(kept.drop_last() =~= before.take(at - 1));
            assert(placed(kept, member) == placed(kept.drop_last(), member).push(kept.last()));
            assert(placed(kept, member) + before.skip(at as int) =~= placed(
                before.take(at - 1),
                member,
            ) + before.skip(at - 1));
        }
        at -= 1;
    }
    proof {
        let kept = before.take(at as int);
        if at > 0 {
            assert(kept.last() == before[at - 1]);
        }
        assert(placed(kept, member) == kept.push(member));
    }
    sorted.insert(at, (key, value));
    assert(members_view(sorted@) =~= before.take(at as int).push(member) + before.skip(at as int));
}

/// Sort object keys recursively by UTF-8 byte order, including objects nested
/// inside arrays. Array element order is left alone.
pub fn sorted_nested(value: &Json) -> (sorted: Json)
    ensures
        sorted@ == canonical(value@),
        well_formed(value@),
        nested_keys_increase(sorted@),
    decreases value,
{
    match value {
        Json::Null => Json::Null,
        Json::Bool(b) => Json::Bool(*b),
        Json::Number(n) => Json::Number(n.clone()),
        Json::String(s) => Json::String(s.clone()),
        Json::Array(items) => {
            let mut out: Vec<Json> = Vec::new();
            let mut i: usize = 0;
            while i < items.len()
                invariant
                    *value == Json::Array(*items),
                    i <= items@.len(),
                    out@.len() == i,
                    forall|j: int|
                        0 <= j < i ==> (#[trigger] out@[j])@ == canonical(items@[j]@)
                            && well_formed(items@[j]@),
                decreases items@.len() - i,
            {
                assert(decreases_to!(*value => value->Array_0));
                out.push(sorted_nested(&items[i]));
                i += 1;
            }
            let sorted = Json::Array(out);
            assert(sorted@->Array_0 =~= canonical(value@)->Array_0);
            proof {
                let given = value@->Array_0;
                assert forall|j: int| 0 <= j < given.len() implies well_formed(
                    #[trigger] given[j],
                ) by {
                    assert(given[j] == items@[j]@);
                    assert(out@[j]@ == canonical(items@[j]@));
                }
                law_nested_keys_are_sorted(value@);
            }
            sorted
        },
        Json::Object(object) => {
            let members = object.members();
            let mut out: Vec<(String, Json)> = Vec::new();
            let mut i: usize = 0;
            let ghost resolved = canonical_members(object@);
            assert(members_view(out@) =~= by_key(resolved.take(0)));
            while i < members.len()
                invariant
                    *value == Json::Object(*object),
                    members@ == object.entries(),
                    distinct_keys(object@),
                    forall|j: int|
                        0 <= j < members@.len() ==> decreases_to!(*object => (#[trigger] members@[j]).1),
                    resolved == canonical_members(object@),
                    i <= members@.len(),
                    members_view(out@) == by_key(resolved.take(i as int)),
                    forall|j: int| 0 <= j < i ==> well_formed((#[trigger] members@[j]).1@),
                decreases members@.len() - i,
            {
                assert(decreases_to!(*value => value->Object_0));
                let child = sorted_nested(&members[i].1);
                place(&mut out, members[i].0.clone(), child);
                proof {
                    let so_far = resolved.take(i + 1);
                    assert(so_far.drop_last() =~= resolved.take(i as int));
                    assert(so_far.last() == resolved[i as int]);
                    assert(object@[i as int] == (members@[i as int].0@, members@[i as int].1@));
                }
                i += 1;
            }
            assert(resolved.take(i as int) =~= resolved);
            proof {
                lemma_canonical_members_distinct(object@);
                lemma_by_key_distinct(resolved);
                assert forall|j: int| 0 <= j < object@.len() implies well_formed(
                    (#[trigger] object@[j]).1,
                ) by {
                    assert(object@[j].1 == members@[j].1@);
                }
                law_nested_keys_are_sorted(value@);
            }
            Json::Object(JsonObject::of_distinct(out))
        },
    }
}

/// Making values canonical leaves the keys alone.
pub proof fn lemma_canonical_members_distinct(members: Members)
    requires
        distinct_keys(members),
    ensures
        distinct_keys(canonical_members(members)),
{
    let out = canonical_members(members);
    assert forall|i: int, j: int| 0 <= i < j < out.len() implies (#[trigger] out[i]).0 != (
    #[trigger] out[j]).0 by {
        assert(members[i].0 != members[j].0);
    }
}

/// Placing a member inserts it somewhere and moves nothing else.
proof fn lemma_placed_inserts(sorted: Members, member: (Seq<char>, JsonView)) -> (at: int)
    ensures
        0 <= at <= sorted.len(),
        placed(sorted, member) == sorted.insert(at, member),
    decreases sorted.len(),
{
    if sorted.len() == 0 || key_le(sorted.last().0, member.0) {
        assert(sorted.push(member) =~= sorted.insert(sorted.len() as int, member));
        sorted.len() as int
    } else {
        let at = lemma_placed_inserts(sorted.drop_last(), member);
        assert(placed(sorted, member) =~= sorted.insert(at, member));
        at
    }
}

/// Sorting by key permutes the members.
pub proof fn lemma_by_key_permutes(members: Members)
    ensures
        by_key(members).len() == members.len(),
        by_key(members).to_multiset() == members.to_multiset(),
    decreases members.len(),
{
    if members.len() > 0 {
        let front = members.drop_last();
        lemma_by_key_permutes(front);
        let at = lemma_placed_inserts(by_key(front), members.last());
        vstd::seq_lib::to_multiset_insert(by_key(front), at, members.last());
        vstd::seq_lib::to_multiset_build(front, members.last());
        assert(front.push(members.last()) =~= members);
    }
}

/// Sorting by key keeps the keys distinct.
pub proof fn lemma_by_key_distinct(members: Members)
    requires
        distinct_keys(members),
    ensures
        distinct_keys(by_key(members)),
    decreases members.len(),
{
    if members.len() > 0 {
        let front = members.drop_last();
        lemma_by_key_distinct(front);
        lemma_by_key_permutes(front);
        let sorted = by_key(front);
        let at = lemma_placed_inserts(sorted, members.last());
        let out = by_key(members);
        assert forall|i: int| 0 <= i < sorted.len() implies (#[trigger] sorted[i]).0
            != members.last().0 by {
            vstd::seq_lib::to_multiset_contains(sorted, sorted[i]);
            vstd::seq_lib::to_multiset_contains(front, sorted[i]);
            assert(sorted.contains(sorted[i]));
            let k = choose|k: int| 0 <= k < front.len() && front[k] == sorted[i];
            assert(members[k] == sorted[i]);
        }
        assert forall|i: int, j: int| 0 <= i < j < out.len() implies (#[trigger] out[i]).0 != (
        #[trigger] out[j]).0 by {
            let from = |k: int|
                if k < at {
                    k
                } else {
                    k - 1
                };
            if i != at && j != at {
                assert(sorted[from(i)].0 != sorted[from(j)].0);
            } else if i == at {
                assert(sorted[j - 1].0 != members.last().0);
            } else {
                assert(sorted[i].0 != members.last().0);
            }
        }
    }
}

} // verus!
