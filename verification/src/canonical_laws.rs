//! What the canonical order of nested keys guarantees.

use vstd::prelude::*;
use vstd::seq_lib::to_multiset_contains;
use vstd::utf8::{encode_utf8, encode_utf8_decode_utf8};

use crate::canonical::{
    by_key, bytes_le, canonical, canonical_members, key_le, keys_increase, lemma_by_key_distinct,
    lemma_by_key_permutes, lemma_canonical_members_distinct, nested_keys_increase, placed,
    well_formed,
};
use crate::json::{distinct_keys, has_key, whole_numbers, JsonView, Members};

verus! {

/// Whether `b` is `a` with the members of its objects, at any depth, in
/// another order.
pub open spec fn reordered(a: JsonView, b: JsonView) -> bool
    decreases a,
{
    match (a, b) {
        (JsonView::Array(x), JsonView::Array(y)) => x.len() == y.len() && forall|i: int|
            0 <= i < x.len() ==> reordered(#[trigger] x[i], y[i]),
        (JsonView::Object(x), JsonView::Object(y)) => x.len() == y.len() && forall|i: int|
            0 <= i < x.len() ==> has_key(y, (#[trigger] x[i]).0) && exists|j: int|
                0 <= j < y.len() && x[i].0 == (#[trigger] y[j]).0 && reordered(x[i].1, y[j].1),
        _ => a == b,
    }
}

proof fn lemma_bytes_total(a: Seq<u8>, b: Seq<u8>)
    ensures
        bytes_le(a, b) || bytes_le(b, a),
        bytes_le(a, b) && bytes_le(b, a) ==> a == b,
    decreases a.len(),
{
    if a.len() > 0 && b.len() > 0 && a[0] == b[0] {
        lemma_bytes_total(a.drop_first(), b.drop_first());
        if bytes_le(a, b) && bytes_le(b, a) {
            assert(a =~= seq![a[0]] + a.drop_first());
            assert(b =~= seq![b[0]] + b.drop_first());
        }
    } else if a.len() == 0 && b.len() == 0 {
        assert(a =~= b);
    }
}

proof fn lemma_bytes_transitive(a: Seq<u8>, b: Seq<u8>, c: Seq<u8>)
    requires
        bytes_le(a, b),
        bytes_le(b, c),
    ensures
        bytes_le(a, c),
    decreases a.len(),
{
    if a.len() > 0 && a[0] == b[0] && b[0] == c[0] {
        lemma_bytes_transitive(a.drop_first(), b.drop_first(), c.drop_first());
    }
}

/// The order of keys is total, and only a key itself comes both before and
/// after it.
pub proof fn lemma_keys_total(a: Seq<char>, b: Seq<char>)
    ensures
        key_le(a, b) || key_le(b, a),
        key_le(a, b) && key_le(b, a) ==> a == b,
{
    lemma_bytes_total(encode_utf8(a), encode_utf8(b));
    encode_utf8_decode_utf8(a);
    encode_utf8_decode_utf8(b);
}

/// The order of keys is transitive.
pub proof fn lemma_keys_transitive(a: Seq<char>, b: Seq<char>, c: Seq<char>)
    requires
        key_le(a, b),
        key_le(b, c),
    ensures
        key_le(a, c),
{
    lemma_bytes_transitive(encode_utf8(a), encode_utf8(b), encode_utf8(c));
}

/// Whether the keys of `members` never decrease.
spec fn keys_ordered(members: Members) -> bool {
    forall|i: int, j: int|
        0 <= i < j < members.len() ==> key_le((#[trigger] members[i]).0, (#[trigger] members[j]).0)
}

proof fn lemma_placed_ordered(sorted: Members, member: (Seq<char>, JsonView))
    requires
        keys_ordered(sorted),
    ensures
        keys_ordered(placed(sorted, member)),
        forall|top: Seq<char>|
            key_le(member.0, top) && (forall|i: int|
                0 <= i < sorted.len() ==> key_le((#[trigger] sorted[i]).0, top)) ==> forall|i: int|
                0 <= i < placed(sorted, member).len() ==> key_le(
                    (#[trigger] placed(sorted, member)[i]).0,
                    top,
                ),
    decreases sorted.len(),
{
    let out = placed(sorted, member);
    if sorted.len() == 0 || key_le(sorted.last().0, member.0) {
        assert forall|i: int, j: int| 0 <= i < j < out.len() implies key_le(
            (#[trigger] out[i]).0,
            (#[trigger] out[j]).0,
        ) by {
            if j == sorted.len() && i < sorted.len() - 1 {
                lemma_keys_transitive(out[i].0, sorted.last().0, member.0);
            }
        }
    } else {
        let front = sorted.drop_last();
        let top = sorted.last().0;
        assert forall|i: int, j: int| 0 <= i < j < front.len() implies key_le(
            (#[trigger] front[i]).0,
            (#[trigger] front[j]).0,
        ) by {
            assert(sorted[i] == front[i] && sorted[j] == front[j]);
        }
        lemma_placed_ordered(front, member);
        lemma_keys_total(member.0, top);
        assert forall|i: int| 0 <= i < front.len() implies key_le((#[trigger] front[i]).0, top) by {
            assert(key_le(sorted[i].0, sorted[sorted.len() - 1].0));
        }
        let rest = placed(front, member);
        assert(forall|i: int| 0 <= i < rest.len() ==> key_le((#[trigger] rest[i]).0, top));
        assert forall|i: int, j: int| 0 <= i < j < out.len() implies key_le(
            (#[trigger] out[i]).0,
            (#[trigger] out[j]).0,
        ) by {
            assert(out[i] == rest[i]);
            if j < rest.len() {
                assert(out[j] == rest[j]);
            }
        }
        assert forall|bound: Seq<char>|
            key_le(member.0, bound) && (forall|i: int|
                0 <= i < sorted.len() ==> key_le((#[trigger] sorted[i]).0, bound)) implies forall|
            i: int,
        |
            0 <= i < out.len() ==> key_le((#[trigger] out[i]).0, bound) by {
            assert forall|i: int| 0 <= i < front.len() implies key_le((#[trigger] front[i]).0, bound) by {
                assert(sorted[i] == front[i]);
            }
            assert forall|i: int| 0 <= i < out.len() implies key_le((#[trigger] out[i]).0, bound) by {
                if i < rest.len() {
                    assert(out[i] == rest[i]);
                } else {
                    assert(sorted[sorted.len() - 1].0 == top);
                }
            }
        }
    }
}

proof fn lemma_by_key_ordered(members: Members)
    ensures
        keys_ordered(by_key(members)),
    decreases members.len(),
{
    if members.len() > 0 {
        lemma_by_key_ordered(members.drop_last());
        lemma_placed_ordered(by_key(members.drop_last()), members.last());
    }
}

/// Sorting members with distinct keys makes the keys increase.
pub proof fn lemma_by_key_increases(members: Members)
    requires
        distinct_keys(members),
    ensures
        keys_increase(by_key(members)),
{
    lemma_by_key_ordered(members);
    lemma_by_key_distinct(members);
}

proof fn lemma_by_key_of_ordered(members: Members)
    requires
        keys_ordered(members),
    ensures
        by_key(members) == members,
    decreases members.len(),
{
    if members.len() > 0 {
        let front = members.drop_last();
        assert forall|i: int, j: int| 0 <= i < j < front.len() implies key_le(
            (#[trigger] front[i]).0,
            (#[trigger] front[j]).0,
        ) by {
            assert(members[i] == front[i] && members[j] == front[j]);
        }
        lemma_by_key_of_ordered(front);
        if front.len() > 0 {
            assert(front.last() == members[members.len() - 2]);
            assert(key_le(members[members.len() - 2].0, members[members.len() - 1].0));
        }
        assert(front.push(members.last()) =~= members);
    }
}

/// Members that a sorted sequence holds were in the sequence that was sorted.
proof fn lemma_by_key_holds(members: Members, i: int) -> (k: int)
    requires
        0 <= i < members.len(),
    ensures
        by_key(members).len() == members.len(),
        0 <= k < members.len(),
        members[k] == by_key(members)[i],
{
    lemma_by_key_permutes(members);
    let member = by_key(members)[i];
    assert(by_key(members).contains(member));
    to_multiset_contains(by_key(members), member);
    to_multiset_contains(members, member);
    choose|k: int| 0 <= k < members.len() && members[k] == member
}

/// Members that were sorted are in the sorted sequence.
proof fn lemma_by_key_keeps(members: Members, i: int) -> (k: int)
    requires
        0 <= i < members.len(),
    ensures
        0 <= k < by_key(members).len(),
        by_key(members)[k] == members[i],
{
    lemma_by_key_permutes(members);
    let member = members[i];
    assert(members.contains(member));
    to_multiset_contains(by_key(members), member);
    to_multiset_contains(members, member);
    choose|k: int| 0 <= k < by_key(members).len() && by_key(members)[k] == member
}

/// A sequence with increasing keys holds no more members than another that
/// holds all of them, and equals it where it holds as many.
proof fn lemma_increasing_subset(s: Members, t: Members)
    requires
        keys_increase(s),
        keys_increase(t),
        forall|i: int| 0 <= i < s.len() ==> t.contains(#[trigger] s[i]),
    ensures
        s.len() <= t.len(),
        s.len() == t.len() ==> s == t,
    decreases s.len(),
{
    if s.len() > 0 {
        let last = s[s.len() - 1];
        assert(t.contains(last));
        let j = choose|j: int| 0 <= j < t.len() && t[j] == last;
        let front = s.drop_last();
        let below = t.take(j);
        assert forall|i: int| 0 <= i < front.len() implies below.contains(#[trigger] front[i]) by {
            assert(s[i] == front[i]);
            assert(t.contains(s[i]));
            let k = choose|k: int| 0 <= k < t.len() && t[k] == s[i];
            assert(key_le(s[i].0, last.0) && s[i].0 != last.0);
            if k > j {
                assert(key_le(t[j].0, t[k].0));
                lemma_keys_total(s[i].0, last.0);
            }
            assert(k < j);
            assert(below[k] == s[i]);
        }
        assert forall|i: int, k: int| 0 <= i < k < front.len() implies key_le(
            (#[trigger] front[i]).0,
            (#[trigger] front[k]).0,
        ) && front[i].0 != front[k].0 by {
            assert(s[i] == front[i] && s[k] == front[k]);
        }
        assert forall|i: int, k: int| 0 <= i < k < below.len() implies key_le(
            (#[trigger] below[i]).0,
            (#[trigger] below[k]).0,
        ) && below[i].0 != below[k].0 by {
            assert(t[i] == below[i] && t[k] == below[k]);
        }
        lemma_increasing_subset(front, below);
        if s.len() == t.len() {
            assert(front == below);
            assert(s =~= front.push(last));
            assert(t =~= below.push(last));
        }
    } else if t.len() == 0 {
        assert(s =~= t);
    }
}

/// After sorting, the keys of every object in a well-formed value increase, and
/// the value is still well-formed.
pub proof fn law_nested_keys_are_sorted(value: JsonView)
    requires
        well_formed(value),
    ensures
        nested_keys_increase(canonical(value)),
        well_formed(canonical(value)),
    decreases value,
{
    match value {
        JsonView::Array(items) => {
            let out = canonical(value)->Array_0;
            assert forall|i: int| 0 <= i < out.len() implies nested_keys_increase(#[trigger] out[i])
                && well_formed(out[i]) by {
                assert(well_formed(items[i]));
                law_nested_keys_are_sorted(items[i]);
            }
        },
        JsonView::Object(members) => {
            let resolved = canonical_members(members);
            let out = by_key(resolved);
            lemma_canonical_members_distinct(members);
            lemma_by_key_increases(resolved);
            lemma_by_key_permutes(resolved);
            assert forall|i: int| 0 <= i < out.len() implies nested_keys_increase(
                (#[trigger] out[i]).1,
            ) && well_formed(out[i].1) by {
                let k = lemma_by_key_holds(resolved, i);
                assert(well_formed(members[k].1));
                law_nested_keys_are_sorted(members[k].1);
            }
        },
        _ => {},
    }
}

/// Two well-formed values that differ only in the order of the members of their
/// objects have one canonical form.
pub proof fn law_nested_order_is_immaterial(a: JsonView, b: JsonView)
    requires
        well_formed(a),
        well_formed(b),
        reordered(a, b),
    ensures
        canonical(a) == canonical(b),
    decreases a,
{
    match (a, b) {
        (JsonView::Array(x), JsonView::Array(y)) => {
            assert forall|i: int| 0 <= i < x.len() implies canonical(#[trigger] x[i]) == canonical(
                y[i],
            ) by {
                assert(well_formed(y[i]));
                law_nested_order_is_immaterial(x[i], y[i]);
            }
            assert(canonical(a)->Array_0 =~= canonical(b)->Array_0);
        },
        (JsonView::Object(x), JsonView::Object(y)) => {
            let left = canonical_members(x);
            let right = canonical_members(y);
            lemma_canonical_members_distinct(x);
            lemma_canonical_members_distinct(y);
            lemma_by_key_increases(left);
            lemma_by_key_increases(right);
            lemma_by_key_permutes(left);
            lemma_by_key_permutes(right);
            assert forall|i: int| 0 <= i < left.len() implies by_key(right).contains(
                #[trigger] by_key(left)[i],
            ) by {
                let k = lemma_by_key_holds(left, i);
                let j = choose|j: int|
                    0 <= j < y.len() && x[k].0 == (#[trigger] y[j]).0 && reordered(x[k].1, y[j].1);
                assert(well_formed(x[k].1));
                assert(well_formed(y[j].1));
                law_nested_order_is_immaterial(x[k].1, y[j].1);
                assert(left[k] == right[j]);
                let at = lemma_by_key_keeps(right, j);
            }
            lemma_increasing_subset(by_key(left), by_key(right));
        },
        _ => {},
    }
}

/// Sorting a value that has been sorted changes nothing.
pub proof fn law_sorting_twice_is_sorting_once(value: JsonView)
    ensures
        canonical(canonical(value)) == canonical(value),
    decreases value,
{
    match value {
        JsonView::Array(items) => {
            assert forall|i: int| 0 <= i < items.len() implies canonical(
                canonical(#[trigger] items[i]),
            ) == canonical(items[i]) by {
                law_sorting_twice_is_sorting_once(items[i]);
            }
            assert(canonical(canonical(value))->Array_0 =~= canonical(value)->Array_0);
        },
        JsonView::Object(members) => {
            let resolved = canonical_members(members);
            let sorted = by_key(resolved);
            lemma_by_key_permutes(resolved);
            assert forall|i: int| 0 <= i < sorted.len() implies canonical_members(sorted)[i]
                == #[trigger] sorted[i] by {
                let k = lemma_by_key_holds(resolved, i);
                law_sorting_twice_is_sorting_once(members[k].1);
            }
            assert(canonical_members(sorted) =~= sorted);
            lemma_by_key_ordered(resolved);
            lemma_by_key_of_ordered(sorted);
        },
        _ => {},
    }
}

/// Sorting permutes the members of an object: none is lost and none is added.
pub proof fn law_sorting_permutes_members(members: Members)
    ensures
        canonical(JsonView::Object(members)) == JsonView::Object(
            by_key(canonical_members(members)),
        ),
        by_key(canonical_members(members)).to_multiset() == canonical_members(
            members,
        ).to_multiset(),
        by_key(canonical_members(members)).len() == members.len(),
{
    lemma_by_key_permutes(canonical_members(members));
}

/// Sorting leaves numbers alone: whole numbers stay whole.
pub proof fn law_sorting_keeps_numbers_whole(value: JsonView)
    requires
        whole_numbers(value),
    ensures
        whole_numbers(canonical(value)),
    decreases value,
{
    match value {
        JsonView::Array(items) => {
            let out = canonical(value)->Array_0;
            assert forall|i: int| 0 <= i < out.len() implies whole_numbers(#[trigger] out[i]) by {
                assert(whole_numbers(items[i]));
                law_sorting_keeps_numbers_whole(items[i]);
            }
        },
        JsonView::Object(members) => {
            let resolved = canonical_members(members);
            let out = by_key(resolved);
            lemma_by_key_permutes(resolved);
            assert forall|i: int| 0 <= i < out.len() implies whole_numbers((#[trigger] out[i]).1) by {
                let k = lemma_by_key_holds(resolved, i);
                assert(whole_numbers(members[k].1));
                law_sorting_keeps_numbers_whole(members[k].1);
            }
        },
        _ => {},
    }
}

/// Sorting only reorders: at every depth each member of an object is still there
/// under its key, and nothing else changes.
pub proof fn law_sorting_only_reorders(value: JsonView)
    ensures
        reordered(value, canonical(value)),
    decreases value,
{
    match value {
        JsonView::Array(items) => {
            let out = canonical(value)->Array_0;
            assert forall|i: int| 0 <= i < items.len() implies reordered(
                #[trigger] items[i],
                out[i],
            ) by {
                law_sorting_only_reorders(items[i]);
            }
        },
        JsonView::Object(members) => {
            let resolved = canonical_members(members);
            let sorted = by_key(resolved);
            lemma_by_key_permutes(resolved);
            assert forall|i: int| 0 <= i < members.len() implies has_key(
                sorted,
                (#[trigger] members[i]).0,
            ) && exists|j: int|
                0 <= j < sorted.len() && members[i].0 == (#[trigger] sorted[j]).0 && reordered(
                    members[i].1,
                    sorted[j].1,
                ) by {
                let j = lemma_by_key_keeps(resolved, i);
                law_sorting_only_reorders(members[i].1);
                assert(sorted[j] == (members[i].0, canonical(members[i].1)));
            }
        },
        _ => {},
    }
}

/// Whether `a` comes before `b` in the order of bytes: they agree up to some place, and
/// there `a` ends or has the smaller byte.
pub open spec fn bytes_before(a: Seq<u8>, b: Seq<u8>) -> bool {
    exists|k: int|
        {
            &&& 0 <= k <= a.len()
            &&& k < b.len()
            &&& #[trigger] a.take(k) == b.take(k)
            &&& k == a.len() || a[k] < b[k]
        }
}

proof fn lemma_le_is_before(a: Seq<u8>, b: Seq<u8>)
    requires
        bytes_le(a, b),
        a != b,
    ensures
        bytes_before(a, b),
    decreases a.len(),
{
    if a.len() == 0 {
        assert(b.len() > 0) by {
            if b.len() == 0 {
                assert(a =~= b);
            }
        }
        assert(a.take(0) =~= b.take(0));
    } else if a[0] != b[0] {
        assert(a.take(0) =~= b.take(0));
    } else {
        let x = a.drop_first();
        let y = b.drop_first();
        if x == y {
            assert(a =~= seq![a[0]] + x);
            assert(b =~= seq![b[0]] + y);
        }
        lemma_le_is_before(x, y);
        let k = choose|k: int|
            {
                &&& 0 <= k <= x.len()
                &&& k < y.len()
                &&& #[trigger] x.take(k) == y.take(k)
                &&& k == x.len() || x[k] < y[k]
            };
        assert(a.take(k + 1) =~= seq![a[0]] + x.take(k));
        assert(b.take(k + 1) =~= seq![b[0]] + y.take(k));
        assert(a.take(k + 1) == b.take(k + 1));
    }
}

/// What sorting does to a value, part by part. Anything but an array or an object stays as
/// it is. An array keeps its items in their places, each sorted. An object keeps its
/// members, each with its value sorted, and no others; and of two members the one whose
/// key has the smaller UTF-8 bytes comes first.
pub proof fn law_sorting_part_by_part(value: JsonView)
    requires
        well_formed(value),
    ensures
        match value {
            JsonView::Array(items) => {
                &&& canonical(value) matches JsonView::Array(out)
                &&& out.len() == items.len()
                &&& forall|i: int|
                    0 <= i < items.len() ==> #[trigger] out[i] == canonical(items[i])
            },
            JsonView::Object(members) => {
                &&& canonical(value) matches JsonView::Object(out)
                &&& out.len() == members.len()
                &&& forall|i: int|
                    0 <= i < members.len() ==> out.contains(
                        ((#[trigger] members[i]).0, canonical(members[i].1)),
                    )
                &&& forall|i: int, j: int|
                    0 <= i < j < out.len() ==> bytes_before(
                        encode_utf8((#[trigger] out[i]).0),
                        encode_utf8((#[trigger] out[j]).0),
                    )
            },
            _ => canonical(value) == value,
        },
{
    if let JsonView::Object(members) = value {
        let resolved = canonical_members(members);
        let out = by_key(resolved);
        lemma_canonical_members_distinct(members);
        lemma_by_key_increases(resolved);
        lemma_by_key_permutes(resolved);
        assert forall|i: int| 0 <= i < members.len() implies out.contains(
            ((#[trigger] members[i]).0, canonical(members[i].1)),
        ) by {
            let k = lemma_by_key_keeps(resolved, i);
        }
        assert forall|i: int, j: int| 0 <= i < j < out.len() implies bytes_before(
            encode_utf8((#[trigger] out[i]).0),
            encode_utf8((#[trigger] out[j]).0),
        ) by {
            assert(key_le(out[i].0, out[j].0) && out[i].0 != out[j].0);
            encode_utf8_decode_utf8(out[i].0);
            encode_utf8_decode_utf8(out[j].0);
            lemma_le_is_before(encode_utf8(out[i].0), encode_utf8(out[j].0));
        }
    }
}

/// Sorting what is below the top level keeps the top level: the same keys in the same
/// places, each with its value sorted.
pub proof fn law_top_level_is_kept(members: Members)
    ensures
        canonical_members(members).len() == members.len(),
        forall|i: int|
            0 <= i < members.len() ==> (#[trigger] canonical_members(members)[i]).0
                == members[i].0 && canonical_members(members)[i].1 == canonical(members[i].1),
{
}

/// A value is well formed if and only if no object in it uses a key twice.
pub proof fn law_well_formed_part_by_part(value: JsonView)
    ensures
        well_formed(value) == match value {
            JsonView::Array(items) => forall|i: int|
                0 <= i < items.len() ==> well_formed(#[trigger] items[i]),
            JsonView::Object(members) => {
                &&& forall|i: int, j: int|
                    0 <= i < j < members.len() ==> (#[trigger] members[i]).0 != (
                    #[trigger] members[j]).0
                &&& forall|i: int|
                    0 <= i < members.len() ==> well_formed((#[trigger] members[i]).1)
            },
            _ => true,
        },
{
}

} // verus!
