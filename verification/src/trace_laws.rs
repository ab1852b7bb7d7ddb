//! What the lines of a trace owe to the operator's order, and what they do not.

use vstd::prelude::*;
use vstd::utf8::encode_utf8;

use crate::canonical::{canonical, canonical_members, nested_keys_increase, well_formed};
use crate::canonical_laws::{
    law_nested_keys_are_sorted, law_nested_order_is_immaterial, law_sorting_only_reorders,
    reordered,
};
use crate::json::{has_key, whole_numbers, JsonView, Members};
use crate::reading::{holds_key, said, says_the_same, Reading};
use crate::serial::{json_text, operator_members};
use crate::trace::{
    framed, framed_outcome, is_one_line, line_outcome, TraceAppend, TraceAppendError,
    MAX_TRACE_BYTES,
};

verus! {

/// Whether every value below the top level is one that JSON can hold: no object
/// uses a key twice.
pub open spec fn values_well_formed(members: Members) -> bool {
    forall|i: int| 0 <= i < members.len() ==> well_formed((#[trigger] members[i]).1)
}

/// Whether `other` has the keys of `members` in the same order, and its values
/// differ from those of `members` at most in the order of nested members.
pub open spec fn reordered_below(members: Members, other: Members) -> bool {
    &&& members.len() == other.len()
    &&& forall|i: int|
        0 <= i < members.len() ==> (#[trigger] members[i]).0 == other[i].0 && reordered(
            members[i].1,
            other[i].1,
        )
}

/// Members that differ only below the top level, and only in order, are written
/// alike.
proof fn lemma_written_alike(members: Members, other: Members)
    requires
        values_well_formed(members),
        values_well_formed(other),
        reordered_below(members, other),
    ensures
        canonical_members(members) == canonical_members(other),
{
    assert forall|i: int| 0 <= i < members.len() implies canonical((#[trigger] members[i]).1)
        == canonical(other[i].1) by {
        assert(well_formed(other[i].1));
        law_nested_order_is_immaterial(members[i].1, other[i].1);
    }
    assert(canonical_members(members) =~= canonical_members(other));
}

/// The bytes of a line do not depend on the order in which a producer built the
/// objects below the top level.
pub proof fn law_nested_order_does_not_reach_the_line(record: TraceAppend, other: TraceAppend)
    requires
        record.ts@ == other.ts@,
        record.kind@ == other.kind@,
        values_well_formed(operator_members(record.fact)),
        values_well_formed(operator_members(record.narration)),
        values_well_formed(operator_members(other.fact)),
        values_well_formed(operator_members(other.narration)),
        reordered_below(operator_members(record.fact), operator_members(other.fact)),
        reordered_below(operator_members(record.narration), operator_members(other.narration)),
    ensures
        record.line() == other.line(),
{
    lemma_written_alike(operator_members(record.fact), operator_members(other.fact));
    lemma_written_alike(operator_members(record.narration), operator_members(other.narration));
}

/// The top level of what is written has the operator's keys in the operator's
/// order; below it the keys of every object increase.
pub proof fn law_operator_order_is_kept(members: Members)
    requires
        values_well_formed(members),
    ensures
        canonical_members(members).len() == members.len(),
        forall|i: int|
            0 <= i < members.len() ==> {
                &&& (#[trigger] canonical_members(members)[i]).0 == members[i].0
                &&& nested_keys_increase(canonical_members(members)[i].1)
            },
{
    assert forall|i: int| 0 <= i < members.len() implies {
        &&& (#[trigger] canonical_members(members)[i]).0 == members[i].0
        &&& nested_keys_increase(canonical_members(members)[i].1)
    } by {
        assert(well_formed(members[i].1));
        law_nested_keys_are_sorted(members[i].1);
    }
}

/// Nothing is lost and nothing is added on the way to the line: what is written has
/// the operator's members in the operator's order, and their values differ from the
/// operator's at most in the order of nested members.
pub proof fn law_written_values_are_the_operators(members: Members)
    ensures
        reordered_below(members, canonical_members(members)),
{
    assert forall|i: int| 0 <= i < members.len() implies (#[trigger] members[i]).0
        == canonical_members(members)[i].0 && reordered(
        members[i].1,
        canonical_members(members)[i].1,
    ) by {
        law_sorting_only_reorders(members[i].1);
    }
}

/// Values that differ only in the order of nested members say the same.
proof fn lemma_reordered_says_the_same(a: JsonView, b: JsonView)
    requires
        reordered(a, b),
    ensures
        says_the_same(said(a), said(b)),
    decreases a,
{
    match (a, b) {
        (JsonView::Array(x), JsonView::Array(y)) => {
            let left = said(a)->List_0;
            let right = said(b)->List_0;
            assert forall|i: int| 0 <= i < left.len() implies says_the_same(
                #[trigger] left[i],
                right[i],
            ) by {
                assert(reordered(x[i], y[i]));
                lemma_reordered_says_the_same(x[i], y[i]);
            }
            assert(says_the_same(said(a), said(b)));
        },
        (JsonView::Object(x), JsonView::Object(y)) => {
            let left = said(a)->Members_0;
            let right = said(b)->Members_0;
            assert forall|i: int| 0 <= i < left.len() implies holds_key(
                right,
                (#[trigger] left[i]).0,
            ) && exists|j: int|
                0 <= j < right.len() && left[i].0 == (#[trigger] right[j]).0 && says_the_same(
                    left[i].1,
                    right[j].1,
                ) by {
                assert(has_key(y, x[i].0));
                let j = choose|j: int|
                    0 <= j < y.len() && x[i].0 == (#[trigger] y[j]).0 && reordered(x[i].1, y[j].1);
                lemma_reordered_says_the_same(x[i].1, y[j].1);
                assert(right[j] == (y[j].0, said(y[j].1)));
            }
            assert(says_the_same(said(a), said(b)));
        },
        _ => {
            assert(a == b);
            assert(says_the_same(said(a), said(a)));
        },
    }
}

/// What is read from the text of a fact or a narration is what the operator wrote: the
/// operator's keys in the operator's order, and under each of them a value that says
/// the same, the order of nested members aside. Nothing is lost, added or cut off.
pub proof fn law_what_is_read_is_what_the_operator_wrote(members: Members)
    ensures
        ({
            let read = said(JsonView::Object(canonical_members(members)));
            &&& read is Members
            &&& read->Members_0.len() == members.len()
            &&& forall|i: int|
                0 <= i < members.len() ==> (#[trigger] read->Members_0[i]).0 == members[i].0
                    && says_the_same(said(members[i].1), read->Members_0[i].1)
        }),
{
    let read = said(JsonView::Object(canonical_members(members)))->Members_0;
    assert forall|i: int| 0 <= i < members.len() implies (#[trigger] read[i]).0 == members[i].0
        && says_the_same(said(members[i].1), read[i].1) by {
        law_sorting_only_reorders(members[i].1);
        lemma_reordered_says_the_same(members[i].1, canonical(members[i].1));
    }
}

/// A record is appended if and only if it has a time stamp and a kind and its line
/// is short enough. Which kind it has, and what its members hold, plays no part.
pub proof fn law_every_short_named_record_is_appended(
    record: TraceAppend,
    result: Result<Vec<u8>, TraceAppendError>,
)
    requires
        line_outcome(record, result),
    ensures
        result is Ok <==> record.ts@.len() > 0 && record.kind@.len() > 0 && record.line().len()
            <= MAX_TRACE_BYTES,
        result is Ok ==> result->Ok_0@ == record.line(),
{
}

/// The UTF-8 bytes of a text.
pub open spec fn literal(text: &str) -> Seq<u8> {
    encode_utf8(text@)
}

/// What becomes of a record, for every record and without a distinction between them. One
/// that lacks its time stamp or its kind is malformed. The line of any other is the JSON
/// texts of its time stamp, its kind, all of its fact and all of its narration, between
/// fixed words. A line of at most 4096 bytes is given as it is; for a longer one there is
/// nothing but its size.
pub proof fn law_line_holds_the_whole_record(
    record: TraceAppend,
    result: Result<Vec<u8>, TraceAppendError>,
)
    requires
        line_outcome(record, result),
    ensures
        (record.ts@.len() == 0 || record.kind@.len() == 0) == (result == Err::<
            Vec<u8>,
            TraceAppendError,
        >(TraceAppendError::Malformed)),
        record.ts@.len() > 0 && record.kind@.len() > 0 ==> {
            let line = literal("{\"ts\":") + json_text(JsonView::String(record.ts@)) + literal(
                ",\"kind\":",
            ) + json_text(JsonView::String(record.kind@)) + literal(",\"fact\":") + json_text(
                JsonView::Object(canonical_members(operator_members(record.fact))),
            ) + literal(",\"narration\":") + json_text(
                JsonView::Object(canonical_members(operator_members(record.narration))),
            ) + literal("}\n");
            &&& line.len() <= 4096 ==> (result matches Ok(bytes) && bytes@ == line)
            &&& line.len() > 4096 ==> (result matches Err(TraceAppendError::TooLarge { bytes })
                && bytes == line.len())
        },
{
}

/// The texts of a record are put on one line between fixed words, all of them and whatever
/// they are. A line of at most 4096 bytes is given as it is; for a longer one there is
/// nothing but its size.
pub proof fn law_frame_holds_all_of_its_parts(
    ts: Seq<u8>,
    kind: Seq<u8>,
    fact: Seq<u8>,
    narration: Seq<u8>,
    result: Result<Vec<u8>, TraceAppendError>,
)
    requires
        framed_outcome(framed(ts, kind, fact, narration), result),
    ensures
        ({
            let line = literal("{\"ts\":") + ts + literal(",\"kind\":") + kind + literal(
                ",\"fact\":",
            ) + fact + literal(",\"narration\":") + narration + literal("}\n");
            &&& line.len() <= 4096 ==> (result matches Ok(bytes) && bytes@ == line)
            &&& line.len() > 4096 ==> (result matches Err(TraceAppendError::TooLarge { bytes })
                && bytes == line.len())
        }),
{
}

/// Whether `reading` holds the members of an operator's map: the same keys in the same
/// order, each with a value that says the same.
pub open spec fn holds_the_operators(reading: Reading, members: Members) -> bool {
    &&& reading matches Reading::Members(read)
    &&& read.len() == members.len()
    &&& forall|i: int|
        0 <= i < members.len() ==> (#[trigger] read[i]).0 == members[i].0 && says_the_same(
            said(members[i].1),
            read[i].1,
        )
}

/// Whether every number under every key is an integer.
pub open spec fn all_whole(members: Members) -> bool {
    forall|i: int| 0 <= i < members.len() ==> whole_numbers((#[trigger] members[i]).1)
}

/// What the line of a record says is the record, for every record: its own time stamp and
/// kind, and all the members of its own fact and narration.
pub proof fn law_line_says_the_record(record: TraceAppend)
    ensures
        ({
            &&& record.reading() matches Reading::Members(read)
            &&& read.len() == 4
            &&& read[0].0 == "ts"@ && read[0].1 == Reading::Text(record.ts@)
            &&& read[1].0 == "kind"@ && read[1].1 == Reading::Text(record.kind@)
            &&& read[2].0 == "fact"@ && holds_the_operators(
                read[2].1,
                operator_members(record.fact),
            )
            &&& read[3].0 == "narration"@ && holds_the_operators(
                read[3].1,
                operator_members(record.narration),
            )
        }),
        record.has_whole_numbers() == (all_whole(operator_members(record.fact)) && all_whole(
            operator_members(record.narration),
        )),
{
    law_what_is_read_is_what_the_operator_wrote(operator_members(record.fact));
    law_what_is_read_is_what_the_operator_wrote(operator_members(record.narration));
    lemma_all_whole(operator_members(record.fact));
    lemma_all_whole(operator_members(record.narration));
}

proof fn lemma_all_whole(members: Members)
    ensures
        whole_numbers(JsonView::Object(members)) == all_whole(members),
{
    let value = JsonView::Object(members);
    assert(value->Object_0 == members);
    if whole_numbers(value) {
        assert forall|i: int| 0 <= i < members.len() implies whole_numbers(
            (#[trigger] members[i]).1,
        ) by {
            assert(whole_numbers(value->Object_0[i].1));
        }
    }
}

/// One line ends in its only line feed.
pub proof fn law_one_line_has_one_line_feed(text: Seq<u8>)
    ensures
        is_one_line(text) == {
            &&& text.len() > 0
            &&& forall|i: int|
                0 <= i < text.len() ==> ((#[trigger] text[i]) == 10 <==> i == text.len() - 1)
        },
{
    if is_one_line(text) {
        assert forall|i: int| 0 <= i < text.len() implies ((#[trigger] text[i]) == 10 <==> i
            == text.len() - 1) by {
            if i < text.len() - 1 {
                assert(text.drop_last()[i] == text[i]);
            }
        }
    }
}

} // verus!
