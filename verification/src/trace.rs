//! Bounded JSON lines that trace what a run did.

use indexmap::IndexMap;
use serde_json::Value;
use vstd::prelude::*;
use vstd::string::StringExecFns;
use vstd::utf8::{encode_utf8, is_ascii_chars_encode_utf8};

use crate::canonical::{canonical_members, sorted_nested};
use crate::canonical_laws::law_sorting_keeps_numbers_whole;
use crate::json::{has_key, whole_numbers, with_member, Json, JsonView, Members};
use crate::reading::{reads_as, said, Reading};
use crate::reading_laws::law_frame_reads_as_its_parts;
use crate::serial::{
    copied_map, empty_map, insert_member, json_text, member_at, member_count, object_text,
    operator_members, rendered_members, string_text, to_value, value_tree,
};
use crate::words::{decimal, decimal_digits};

verus! {

/// The facts of a trace record, without the narration that stays local.
#[derive(Debug, PartialEq)]
pub struct TraceFactRecord {
    pub ts: String,
    pub kind: String,
    pub fact: IndexMap<String, Json>,
}

/// One trace record to append.
///
/// Producers must deserialize `fact` and `narration` directly into `IndexMap`.
/// Deserializing into a map that sorts its keys first silently loses the
/// operator's top-level key order. Top-level order is the operator's and is
/// preserved as given; nested object keys are sorted by this writer explicitly,
/// on the way out.
#[derive(Debug, PartialEq)]
pub struct TraceAppend {
    pub ts: String,
    pub kind: String,
    pub fact: IndexMap<String, Json>,
    pub narration: IndexMap<String, Json>,
}

impl Clone for TraceFactRecord {
    fn clone(&self) -> (copy: TraceFactRecord)
        ensures
            copy.ts@ == self.ts@,
            copy.kind@ == self.kind@,
            operator_members(copy.fact) == operator_members(self.fact),
    {
        TraceFactRecord {
            ts: self.ts.clone(),
            kind: self.kind.clone(),
            fact: copied_map(&self.fact),
        }
    }
}

impl Clone for TraceAppend {
    fn clone(&self) -> (copy: TraceAppend)
        ensures
            copy.ts@ == self.ts@,
            copy.kind@ == self.kind@,
            operator_members(copy.fact) == operator_members(self.fact),
            operator_members(copy.narration) == operator_members(self.narration),
    {
        TraceAppend {
            ts: self.ts.clone(),
            kind: self.kind.clone(),
            fact: copied_map(&self.fact),
            narration: copied_map(&self.narration),
        }
    }
}

/// Why a trace record was not appended.
#[derive(Debug, PartialEq)]
pub enum TraceAppendError {
    /// The time stamp or the kind is empty.
    Malformed,
    /// The line would be longer than a trace line may be.
    TooLarge { bytes: usize },
    /// The writer failed, in its own words.
    Write(String),
}

impl TraceAppendError {
    /// The failure in words.
    pub fn message(&self) -> (words: String)
        ensures
            words@ == match *self {
                TraceAppendError::Malformed =>
                    "malformed trace record: trace ts and kind must not be empty"@,
                TraceAppendError::TooLarge { bytes } => "trace record is "@ + decimal_digits(
                    bytes as nat,
                ) + " bytes; maximum is 4096"@,
                TraceAppendError::Write(reason) => "could not append trace record: "@ + reason@,
            },
    {
        match self {
            TraceAppendError::Malformed => "malformed trace record: trace ts and kind must not be empty".to_owned(),
            TraceAppendError::TooLarge { bytes } => "trace record is ".to_owned().concat(
                decimal(*bytes).as_str(),
            ).concat(" bytes; maximum is 4096"),
            TraceAppendError::Write(reason) => "could not append trace record: ".to_owned().concat(
                reason.as_str(),
            ),
        }
    }
}

/// How many bytes a trace line may have, its line feed included.
pub const MAX_TRACE_BYTES: usize = 4096;

/// The line around the JSON texts of a time stamp, a kind, a fact and a narration:
/// a JSON object and a line feed.
pub open spec fn framed(ts: Seq<u8>, kind: Seq<u8>, fact: Seq<u8>, narration: Seq<u8>) -> Seq<u8> {
    encode_utf8("{\"ts\":"@) + ts + encode_utf8(",\"kind\":"@) + kind + encode_utf8(
        ",\"fact\":"@,
    ) + fact + encode_utf8(",\"narration\":"@) + narration + encode_utf8("}\n"@)
}

/// What becomes of the texts of a record: their line, or its size where it would be
/// too long.
pub open spec fn framed_outcome(line: Seq<u8>, result: Result<Vec<u8>, TraceAppendError>) -> bool {
    if line.len() > MAX_TRACE_BYTES {
        &&& result matches Err(TraceAppendError::TooLarge { bytes })
        &&& bytes == line.len()
    } else {
        &&& result matches Ok(bytes)
        &&& bytes@ == line
    }
}

impl TraceAppend {
    /// The line that records this: the members of `fact` and `narration` stay in
    /// the operator's order, the keys below them are sorted.
    pub open spec fn line(&self) -> Seq<u8> {
        framed(
            json_text(JsonView::String(self.ts@)),
            json_text(JsonView::String(self.kind@)),
            json_text(JsonView::Object(canonical_members(operator_members(self.fact)))),
            json_text(JsonView::Object(canonical_members(operator_members(self.narration)))),
        )
    }

    /// Whether no number in the record is a floating-point number.
    pub open spec fn has_whole_numbers(&self) -> bool {
        &&& whole_numbers(JsonView::Object(operator_members(self.fact)))
        &&& whole_numbers(JsonView::Object(operator_members(self.narration)))
    }

    /// What the line that records this says: one object with the members `ts`, `kind`,
    /// `fact` and `narration`, in this order.
    pub open spec fn reading(&self) -> Reading {
        Reading::Members(
            seq![
                ("ts"@, Reading::Text(self.ts@)),
                ("kind"@, Reading::Text(self.kind@)),
                (
                    "fact"@,
                    said(JsonView::Object(canonical_members(operator_members(self.fact)))),
                ),
                (
                    "narration"@,
                    said(JsonView::Object(canonical_members(operator_members(self.narration)))),
                ),
            ],
        )
    }

    /// Whether the record lacks its time stamp or its kind.
    pub open spec fn malformed(&self) -> bool {
        self.ts@.len() == 0 || self.kind@.len() == 0
    }
}

/// What becomes of a record: its line, or why there is none.
pub open spec fn line_outcome(
    record: TraceAppend,
    result: Result<Vec<u8>, TraceAppendError>,
) -> bool {
    if record.malformed() {
        result == Err::<Vec<u8>, TraceAppendError>(TraceAppendError::Malformed)
    } else {
        framed_outcome(record.line(), result)
    }
}

/// Whether `text` is one line: it ends in a line feed and holds no other.
pub open spec fn is_one_line(text: Seq<u8>) -> bool {
    &&& text.len() > 0
    &&& text.last() == 10
    &&& !text.drop_last().contains(10u8)
}

/// Copy an operator map, sorting every nested object's keys while keeping the
/// map's own top-level order, which is the operator's and is guaranteed.
fn sorted_nested_map(map: &IndexMap<String, Json>) -> (sorted: IndexMap<String, Value>)
    ensures
        rendered_members(sorted) == canonical_members(operator_members(*map)),
{
    let ghost members = operator_members(*map);
    let ghost wanted = canonical_members(members);
    let mut sorted = empty_map();
    let mut i: usize = 0;
    assert(wanted.take(0) =~= Members::empty());
    let count = member_count(map);
    while i < count
        invariant
            members == operator_members(*map),
            wanted == canonical_members(members),
            count == members.len(),
            i <= count,
            rendered_members(sorted) == wanted.take(i as int),
        decreases count - i,
    {
        let (key, value) = member_at(map, i);
        let child = to_value(&sorted_nested(value));
        proof {
            let so_far = wanted.take(i as int);
            assert forall|j: int| 0 <= j < so_far.len() implies (#[trigger] so_far[j]).0 != key@ by {
                assert(members[j].0 != key@);
            }
            assert(!has_key(so_far, key@));
            assert(with_member(so_far, key@, value_tree(child)) =~= wanted.take(i + 1));
        }
        let _ = insert_member(&mut sorted, key.clone(), child);
        i += 1;
    }
    assert(wanted.take(i as int) =~= wanted);
    sorted
}

/// The frame of a line adds no line feed but the last byte.
proof fn lemma_frame_is_one_line(ts: Seq<u8>, kind: Seq<u8>, fact: Seq<u8>, narration: Seq<u8>)
    requires
        !ts.contains(10u8),
        !kind.contains(10u8),
        !fact.contains(10u8),
        !narration.contains(10u8),
    ensures
        is_one_line(framed(ts, kind, fact, narration)),
{
    reveal_strlit("{\"ts\":");
    reveal_strlit(",\"kind\":");
    reveal_strlit(",\"fact\":");
    reveal_strlit(",\"narration\":");
    reveal_strlit("}\n");
    is_ascii_chars_encode_utf8("{\"ts\":"@);
    is_ascii_chars_encode_utf8(",\"kind\":"@);
    is_ascii_chars_encode_utf8(",\"fact\":"@);
    is_ascii_chars_encode_utf8(",\"narration\":"@);
    is_ascii_chars_encode_utf8("}\n"@);
    let body = encode_utf8("{\"ts\":"@) + ts + encode_utf8(",\"kind\":"@) + kind + encode_utf8(
        ",\"fact\":"@,
    ) + fact + encode_utf8(",\"narration\":"@) + narration;
    assert(framed(ts, kind, fact, narration).drop_last() =~= body.push(125u8));
}

/// Sorting what is below the top level leaves numbers alone.
proof fn lemma_members_stay_whole(members: Members)
    requires
        whole_numbers(JsonView::Object(members)),
    ensures
        whole_numbers(JsonView::Object(canonical_members(members))),
{
    let value = JsonView::Object(members);
    let out = canonical_members(members);
    assert forall|i: int| 0 <= i < out.len() implies whole_numbers((#[trigger] out[i]).1) by {
        assert(whole_numbers(value->Object_0[i].1));
        law_sorting_keeps_numbers_whole(members[i].1);
    }
}

/// Put the JSON texts of a record on one bounded line.
pub fn framed_line(ts: &[u8], kind: &[u8], fact: &[u8], narration: &[u8]) -> (result: Result<
    Vec<u8>,
    TraceAppendError,
>)
    ensures
        framed_outcome(framed(ts@, kind@, fact@, narration@), result),
{
    let mut line: Vec<u8> = Vec::new();
    line.extend_from_slice("{\"ts\":".as_bytes());
    line.extend_from_slice(ts);
    line.extend_from_slice(",\"kind\":".as_bytes());
    line.extend_from_slice(kind);
    line.extend_from_slice(",\"fact\":".as_bytes());
    line.extend_from_slice(fact);
    line.extend_from_slice(",\"narration\":".as_bytes());
    line.extend_from_slice(narration);
    line.extend_from_slice("}\n".as_bytes());
    assert(line@ =~= framed(ts@, kind@, fact@, narration@));
    if line.len() > MAX_TRACE_BYTES {
        return Err(TraceAppendError::TooLarge { bytes: line.len() });
    }
    Ok(line)
}

/// Serialize one bounded trace record.
pub fn trace_line(record: &TraceAppend) -> (result: Result<Vec<u8>, TraceAppendError>)
    ensures
        line_outcome(*record, result),
        result matches Ok(line) ==> is_one_line(line@),
        result matches Ok(line) ==> record.has_whole_numbers() ==> reads_as(
            line@.drop_last(),
            record.reading(),
        ),
{
    if record.ts.as_str().is_empty() || record.kind.as_str().is_empty() {
        return Err(TraceAppendError::Malformed);
    }
    let ts = string_text(record.ts.as_str());
    let kind = string_text(record.kind.as_str());
    let fact = object_text(&sorted_nested_map(&record.fact));
    let narration = object_text(&sorted_nested_map(&record.narration));
    proof {
        lemma_frame_is_one_line(ts@, kind@, fact@, narration@);
        if record.has_whole_numbers() {
            lemma_members_stay_whole(operator_members(record.fact));
            lemma_members_stay_whole(operator_members(record.narration));
            law_frame_reads_as_its_parts(
                ts@,
                kind@,
                fact@,
                narration@,
                Reading::Text(record.ts@),
                Reading::Text(record.kind@),
                said(JsonView::Object(canonical_members(operator_members(record.fact)))),
                said(JsonView::Object(canonical_members(operator_members(record.narration)))),
            );
        }
    }
    framed_line(ts.as_slice(), kind.as_slice(), fact.as_slice(), narration.as_slice())
}

/// What an append reports once its line was to be written: the line, or the words
/// of the writer that failed to take it.
pub fn trace_written(line: Vec<u8>, written: Result<(), String>) -> (result: Result<
    Vec<u8>,
    TraceAppendError,
>)
    ensures
        result == match written {
            Ok(_) => Ok::<Vec<u8>, TraceAppendError>(line),
            Err(words) => Err::<Vec<u8>, TraceAppendError>(TraceAppendError::Write(words)),
        },
{
    match written {
        Ok(()) => Ok(line),
        Err(words) => Err(TraceAppendError::Write(words)),
    }
}

/// Serialize and append one bounded trace record to the supplied writer.
pub fn append_trace(writer: &mut Vec<u8>, record: &TraceAppend) -> (result: Result<
    Vec<u8>,
    TraceAppendError,
>)
    ensures
        line_outcome(*record, result),
        result matches Ok(line) ==> is_one_line(line@),
        result matches Ok(line) ==> record.has_whole_numbers() ==> reads_as(
            line@.drop_last(),
            record.reading(),
        ),
        final(writer)@ == match result {
            Ok(line) => old(writer)@ + line@,
            Err(_) => old(writer)@,
        },
{
    match trace_line(record) {
        Ok(line) => {
            writer.extend_from_slice(line.as_slice());
            Ok(line)
        },
        Err(error) => Err(error),
    }
}

} // verus!
