//! What more text does to a reading, and what a trace line says.

use vstd::prelude::*;
use vstd::utf8::{
    encode_utf8, encode_utf8_decode_utf8, encode_utf8_valid_utf8, is_ascii_chars_encode_utf8,
};

use crate::json::{number_int, JsonView};
use crate::reading::{
    begins, digit_run, false_word, null_word, read_bytes, read_escape, read_integer, read_items,
    read_members, read_natural, read_string, read_value, reads_as, said, says_the_same, true_word,
    Reading,
};
use crate::trace::framed;

verus! {

/// A run of digits that ended before the text did ends there in a longer text too.
proof fn lemma_run_extends(text: Seq<u8>, more: Seq<u8>)
    ensures
        digit_run(text) <= text.len(),
        digit_run(text) < text.len() ==> digit_run(text + more) == digit_run(text),
    decreases text.len(),
{
    if text.len() > 0 {
        lemma_run_extends(text.skip(1), more);
        assert((text + more).skip(1) =~= text.skip(1) + more);
    }
}

proof fn lemma_natural_extends(text: Seq<u8>, more: Seq<u8>)
    requires
        read_natural(text) is Some,
        (read_natural(text)->0).1.len() > 0,
    ensures
        read_natural(text + more) == Some(
            ((read_natural(text)->0).0, (read_natural(text)->0).1 + more),
        ),
{
    let n = digit_run(text) as int;
    lemma_run_extends(text, more);
    assert((text + more).take(n) =~= text.take(n));
    assert((text + more).skip(n) =~= text.skip(n) + more);
}

proof fn lemma_integer_extends(text: Seq<u8>, more: Seq<u8>)
    requires
        read_integer(text) is Some,
        (read_integer(text)->0).1.len() > 0,
    ensures
        read_integer(text + more) == Some(
            ((read_integer(text)->0).0, (read_integer(text)->0).1 + more),
        ),
{
    if text.len() > 0 && text[0] == '-' as u8 {
        lemma_natural_extends(text.skip(1), more);
        assert((text + more).skip(1) =~= text.skip(1) + more);
    } else {
        lemma_natural_extends(text, more);
        lemma_run_extends(text, more);
    }
}

proof fn lemma_bytes_extend(text: Seq<u8>, more: Seq<u8>)
    requires
        read_bytes(text) is Some,
    ensures
        read_bytes(text + more) == Some(((read_bytes(text)->0).0, (read_bytes(text)->0).1 + more)),
    decreases text.len(),
{
    let whole = text + more;
    if text[0] == '"' as u8 {
        assert(whole.skip(1) =~= text.skip(1) + more);
    } else {
        let first = if text[0] == '\\' as u8 {
            read_escape(text)
        } else {
            Some((text[0], 1int))
        };
        let length = (first->0).1;
        assert(whole.skip(length) =~= text.skip(length) + more);
        lemma_bytes_extend(text.skip(length), more);
    }
}

proof fn lemma_string_extends(text: Seq<u8>, more: Seq<u8>)
    requires
        read_string(text) is Some,
    ensures
        read_string(text + more) == Some(((read_string(text)->0).0, (read_string(text)->0).1 + more)),
{
    lemma_bytes_extend(text.skip(1), more);
    assert((text + more).skip(1) =~= text.skip(1) + more);
}

proof fn lemma_begins_extends(text: Seq<u8>, more: Seq<u8>, word: Seq<u8>)
    requires
        text.len() > 0,
        word.len() > 0,
    ensures
        begins(text, word) ==> begins(text + more, word),
        text[0] != word[0] ==> !begins(text, word) && !begins(text + more, word),
{
    if begins(text, word) {
        assert((text + more).take(word.len() as int) =~= text.take(word.len() as int));
    }
    if word.len() <= text.len() {
        assert(text.take(word.len() as int)[0] == text[0]);
    }
    if word.len() <= (text + more).len() {
        assert((text + more).take(word.len() as int)[0] == text[0]);
    }
}

/// A value that was read is read from a longer text too, and what follows it is
/// followed by the rest of that text. A number must have ended before.
proof fn lemma_value_extends(text: Seq<u8>, more: Seq<u8>)
    requires
        read_value(text) is Some,
        (read_value(text)->0).0 is Integer ==> (read_value(text)->0).1.len() > 0,
    ensures
        read_value(text + more) == Some(((read_value(text)->0).0, (read_value(text)->0).1 + more)),
    decreases text.len(), 0int,
{
    let whole = text + more;
    lemma_begins_extends(text, more, null_word());
    lemma_begins_extends(text, more, true_word());
    lemma_begins_extends(text, more, false_word());
    assert(whole.skip(1) =~= text.skip(1) + more);
    if begins(text, null_word()) || begins(text, true_word()) {
        assert(whole.skip(4) =~= text.skip(4) + more);
    } else if begins(text, false_word()) {
        assert(whole.skip(5) =~= text.skip(5) + more);
    } else if text[0] == '"' as u8 {
        lemma_string_extends(text, more);
    } else if text[0] == '[' as u8 {
        if text.len() > 1 && text[1] == ']' as u8 {
            assert(whole.skip(2) =~= text.skip(2) + more);
        } else {
            lemma_items_extend(text.skip(1), more);
        }
    } else if text[0] == '{' as u8 {
        if text.len() > 1 && text[1] == '}' as u8 {
            assert(whole.skip(2) =~= text.skip(2) + more);
        } else {
            lemma_members_extend(text.skip(1), more);
        }
    } else {
        lemma_integer_extends(text, more);
    }
}

proof fn lemma_items_extend(text: Seq<u8>, more: Seq<u8>)
    requires
        read_items(text) is Some,
    ensures
        read_items(text + more) == Some(((read_items(text)->0).0, (read_items(text)->0).1 + more)),
    decreases text.len(), 1int,
{
    let rest = (read_value(text)->0).1;
    lemma_value_extends(text, more);
    assert((rest + more).skip(1) =~= rest.skip(1) + more);
    if rest[0] != ']' as u8 {
        lemma_items_extend(rest.skip(1), more);
    }
}

proof fn lemma_members_extend(text: Seq<u8>, more: Seq<u8>)
    requires
        read_members(text) is Some,
    ensures
        read_members(text + more) == Some(
            ((read_members(text)->0).0, (read_members(text)->0).1 + more),
        ),
    decreases text.len(), 1int,
{
    let after_key = (read_string(text)->0).1;
    lemma_string_extends(text, more);
    assert((after_key + more).skip(1) =~= after_key.skip(1) + more);
    let rest = (read_value(after_key.skip(1))->0).1;
    lemma_value_extends(after_key.skip(1), more);
    assert((rest + more).skip(1) =~= rest.skip(1) + more);
    if rest[0] != '}' as u8 {
        lemma_members_extend(rest.skip(1), more);
    }
}

/// A string that needs no escapes is read as it stands.
proof fn lemma_plain_string(word: Seq<u8>, more: Seq<u8>)
    requires
        forall|i: int|
            0 <= i < word.len() ==> (#[trigger] word[i]) >= 32 && word[i] != '"' as u8 && word[i]
                != '\\' as u8,
    ensures
        read_bytes(word + seq!['"' as u8] + more) == Some((word, more)),
    decreases word.len(),
{
    let text = word + seq!['"' as u8] + more;
    if word.len() == 0 {
        assert(text.skip(1) =~= more);
        assert(word =~= Seq::empty());
    } else {
        let later = word.skip(1);
        lemma_plain_string(later, more);
        assert(text.skip(1) =~= later + seq!['"' as u8] + more);
        assert(seq![word[0]] + later =~= word);
    }
}

/// A key that needs no escapes.
spec fn plain_key(key: Seq<char>) -> bool {
    forall|i: int|
        0 <= i < key.len() ==> ' ' <= (#[trigger] key[i]) <= '~' && key[i] != '"' && key[i] != '\\'
}

/// The text of a member, and what follows it.
#[verifier::opaque]
spec fn member_text(key: Seq<char>, value: Seq<u8>, more: Seq<u8>) -> Seq<u8> {
    seq!['"' as u8] + encode_utf8(key) + seq!['"' as u8, ':' as u8] + value + more
}

/// A member is read from its key, its value and what separates it from the rest.
proof fn lemma_member(key: Seq<char>, value: Seq<u8>, reading: Reading, more: Seq<u8>)
    requires
        plain_key(key),
        reads_as(value, reading),
        reading !is Integer,
        more.len() > 0,
    ensures
        ({
            let text = member_text(key, value, more);
            &&& more[0] == '}' as u8 ==> read_members(text) == Some(
                (seq![(key, reading)], more.skip(1)),
            )
            &&& more[0] == ',' as u8 && read_members(more.skip(1)) is Some ==> read_members(text)
                == Some(
                (
                    seq![(key, reading)] + (read_members(more.skip(1))->0).0,
                    (read_members(more.skip(1))->0).1,
                ),
            )
        }),
{
    reveal(member_text);
    let quote = seq!['"' as u8];
    let word = encode_utf8(key);
    let after_key = seq![':' as u8] + value + more;
    let text = member_text(key, value, more);
    is_ascii_chars_encode_utf8(key);
    encode_utf8_valid_utf8(key);
    encode_utf8_decode_utf8(key);
    assert forall|i: int| 0 <= i < word.len() implies (#[trigger] word[i]) >= 32 && word[i]
        != '"' as u8 && word[i] != '\\' as u8 by {
        assert(key[i] as u8 == word[i]);
    }
    lemma_plain_string(word, after_key);
    assert(text.skip(1) =~= word + quote + after_key);
    assert(read_string(text) == Some((key, after_key)));
    lemma_value_extends(value, more);
    assert(after_key.skip(1) =~= value + more);
    assert(Seq::<u8>::empty() + more =~= more);
    assert(read_value(after_key.skip(1)) == Some((reading, more)));
}

/// A trace line without its line feed says one object: the members `ts`, `kind`,
/// `fact` and `narration`, in this order and no others, each with what its own text
/// says.
pub proof fn law_frame_reads_as_its_parts(
    ts: Seq<u8>,
    kind: Seq<u8>,
    fact: Seq<u8>,
    narration: Seq<u8>,
    ts_reading: Reading,
    kind_reading: Reading,
    fact_reading: Reading,
    narration_reading: Reading,
)
    requires
        reads_as(ts, ts_reading),
        reads_as(kind, kind_reading),
        reads_as(fact, fact_reading),
        reads_as(narration, narration_reading),
        ts_reading !is Integer,
        kind_reading !is Integer,
        fact_reading !is Integer,
        narration_reading !is Integer,
    ensures
        reads_as(
            framed(ts, kind, fact, narration).drop_last(),
            Reading::Members(
                seq![
                    ("ts"@, ts_reading),
                    ("kind"@, kind_reading),
                    ("fact"@, fact_reading),
                    ("narration"@, narration_reading),
                ],
            ),
        ),
{
    reveal_strlit("ts");
    reveal_strlit("kind");
    reveal_strlit("fact");
    reveal_strlit("narration");
    let end = seq!['}' as u8];
    let fourth = member_text("narration"@, narration, end);
    let third = member_text("fact"@, fact, seq![',' as u8] + fourth);
    let second = member_text("kind"@, kind, seq![',' as u8] + third);
    let first = member_text("ts"@, ts, seq![',' as u8] + second);
    lemma_member("narration"@, narration, narration_reading, end);
    assert(end.skip(1) =~= Seq::empty());
    assert((seq![',' as u8] + fourth).skip(1) =~= fourth);
    lemma_member("fact"@, fact, fact_reading, seq![',' as u8] + fourth);
    assert((seq![',' as u8] + third).skip(1) =~= third);
    lemma_member("kind"@, kind, kind_reading, seq![',' as u8] + third);
    assert((seq![',' as u8] + second).skip(1) =~= second);
    lemma_member("ts"@, ts, ts_reading, seq![',' as u8] + second);
    assert((read_members(first)->0).0 =~= seq![
        ("ts"@, ts_reading),
        ("kind"@, kind_reading),
        ("fact"@, fact_reading),
        ("narration"@, narration_reading),
    ]);
    lemma_frame_shape(ts, kind, fact, narration);
    lemma_object(first);
}

/// An object is read from its members.
proof fn lemma_object(members: Seq<u8>)
    requires
        read_members(members) is Some,
        members.len() > 0,
        members[0] == '"' as u8,
    ensures
        read_value(seq!['{' as u8] + members) == Some(
            (Reading::Members((read_members(members)->0).0), (read_members(members)->0).1),
        ),
{
    let text = seq!['{' as u8] + members;
    assert(text.skip(1) =~= members);
    lemma_begins_extends(text, Seq::empty(), null_word());
    lemma_begins_extends(text, Seq::empty(), true_word());
    lemma_begins_extends(text, Seq::empty(), false_word());
}

/// A line without its line feed is a brace and the texts of its members.
proof fn lemma_frame_shape(ts: Seq<u8>, kind: Seq<u8>, fact: Seq<u8>, narration: Seq<u8>)
    ensures
        ({
            let fourth = member_text("narration"@, narration, seq!['}' as u8]);
            let third = member_text("fact"@, fact, seq![',' as u8] + fourth);
            let second = member_text("kind"@, kind, seq![',' as u8] + third);
            let first = member_text("ts"@, ts, seq![',' as u8] + second);
            framed(ts, kind, fact, narration).drop_last() == seq!['{' as u8] + first
        }),
{
    let comma = seq![',' as u8];
    let brace = seq!['}' as u8];
    let fourth = member_text("narration"@, narration, brace);
    let third = member_text("fact"@, fact, comma + fourth);
    let second = member_text("kind"@, kind, comma + third);
    lemma_openings();
    let before_ts = encode_utf8("{\"ts\":"@);
    let before_kind = encode_utf8(",\"kind\":"@);
    let before_fact = encode_utf8(",\"fact\":"@);
    let before_narration = encode_utf8(",\"narration\":"@);
    let end = encode_utf8("}\n"@);
    lemma_opened(',' as u8, "narration"@, narration, brace);
    lemma_opened(',' as u8, "fact"@, fact, comma + fourth);
    lemma_opened(',' as u8, "kind"@, kind, comma + third);
    lemma_opened('{' as u8, "ts"@, ts, comma + second);
    let parts = before_ts + ts + before_kind + kind + before_fact + fact + before_narration
        + narration;
    assert(end.drop_last() =~= brace);
    assert((parts + end).drop_last() =~= parts + end.drop_last());
    let to_fact = before_ts + ts + before_kind + kind + before_fact + fact;
    let to_kind = before_ts + ts + before_kind + kind;
    lemma_regrouped(to_fact, before_narration, narration, brace);
    lemma_regrouped(to_kind, before_fact, fact, comma + fourth);
    lemma_regrouped(before_ts + ts, before_kind, kind, comma + third);
    lemma_regrouped(Seq::empty(), before_ts, ts, comma + second);
    assert(Seq::<u8>::empty() + before_ts =~= before_ts);
    assert(Seq::<u8>::empty() + (before_ts + (ts + (comma + second))) =~= before_ts + (ts + (comma
        + second)));
}

/// Texts that follow each other can be grouped from either end.
proof fn lemma_regrouped(a: Seq<u8>, b: Seq<u8>, c: Seq<u8>, d: Seq<u8>)
    ensures
        a + b + c + d == a + (b + (c + d)),
{
    assert(a + b + c + d =~= a + (b + (c + d)));
}

/// A member behind what separates it from what is before it.
proof fn lemma_opened(lead: u8, key: Seq<char>, value: Seq<u8>, more: Seq<u8>)
    ensures
        seq![lead] + member_text(key, value, more) == (seq![lead, '"' as u8] + encode_utf8(key)
            + seq!['"' as u8, ':' as u8]) + (value + more),
{
    reveal(member_text);
    assert(seq![lead] + member_text(key, value, more) =~= (seq![lead, '"' as u8] + encode_utf8(key)
        + seq!['"' as u8, ':' as u8]) + (value + more));
}

/// What stands before the value of each member.
proof fn lemma_openings()
    ensures
        encode_utf8("{\"ts\":"@) == seq!['{' as u8, '"' as u8] + encode_utf8("ts"@) + seq![
            '"' as u8,
            ':' as u8,
        ],
        encode_utf8(",\"kind\":"@) == seq![',' as u8, '"' as u8] + encode_utf8("kind"@) + seq![
            '"' as u8,
            ':' as u8,
        ],
        encode_utf8(",\"fact\":"@) == seq![',' as u8, '"' as u8] + encode_utf8("fact"@) + seq![
            '"' as u8,
            ':' as u8,
        ],
        encode_utf8(",\"narration\":"@) == seq![',' as u8, '"' as u8] + encode_utf8("narration"@)
            + seq!['"' as u8, ':' as u8],
        encode_utf8("}\n"@) == seq!['}' as u8, 10u8],
{
    reveal_strlit("ts");
    reveal_strlit("kind");
    reveal_strlit("fact");
    reveal_strlit("narration");
    reveal_strlit("{\"ts\":");
    reveal_strlit(",\"kind\":");
    reveal_strlit(",\"fact\":");
    reveal_strlit(",\"narration\":");
    reveal_strlit("}\n");
    is_ascii_chars_encode_utf8("ts"@);
    is_ascii_chars_encode_utf8("kind"@);
    is_ascii_chars_encode_utf8("fact"@);
    is_ascii_chars_encode_utf8("narration"@);
    is_ascii_chars_encode_utf8("{\"ts\":"@);
    is_ascii_chars_encode_utf8(",\"kind\":"@);
    is_ascii_chars_encode_utf8(",\"fact\":"@);
    is_ascii_chars_encode_utf8(",\"narration\":"@);
    is_ascii_chars_encode_utf8("}\n"@);
}

/// A text says at most one thing.
pub proof fn law_text_says_one_thing(text: Seq<u8>, a: Reading, b: Reading)
    requires
        reads_as(text, a),
        reads_as(text, b),
    ensures
        a == b,
{
}

/// What a text of a value must say is the value, part by part: strings as they are, whole
/// numbers as their integers, items in their places, members under their keys in their
/// order.
pub proof fn law_value_is_said_part_by_part(value: JsonView)
    ensures
        match value {
            JsonView::Null => said(value) is Null,
            JsonView::Bool(b) => said(value) == Reading::Bool(b),
            JsonView::Number(n) => number_int(n) matches Some(i) ==> said(value)
                == Reading::Integer(i),
            JsonView::String(s) => said(value) == Reading::Text(s),
            JsonView::Array(items) => {
                &&& said(value) matches Reading::List(list)
                &&& list.len() == items.len()
                &&& forall|i: int| 0 <= i < items.len() ==> #[trigger] list[i] == said(items[i])
            },
            JsonView::Object(members) => {
                &&& said(value) matches Reading::Members(list)
                &&& list.len() == members.len()
                &&& forall|i: int|
                    0 <= i < members.len() ==> (#[trigger] list[i]).0 == members[i].0 && list[i].1
                        == said(members[i].1)
            },
        },
{
}

/// Readings that say the same are of one sort and hold the same: what is no list and has
/// no members is equal, items say the same in their places, and each member has one under
/// the same key that says the same.
pub proof fn law_saying_the_same_part_by_part(a: Reading, b: Reading)
    requires
        says_the_same(a, b),
    ensures
        match a {
            Reading::List(x) => {
                &&& b matches Reading::List(y)
                &&& x.len() == y.len()
                &&& forall|i: int| 0 <= i < x.len() ==> says_the_same(#[trigger] x[i], y[i])
            },
            Reading::Members(x) => {
                &&& b matches Reading::Members(y)
                &&& x.len() == y.len()
                &&& forall|i: int|
                    0 <= i < x.len() ==> #[trigger] said_under_its_key(x, i, y)
            },
            _ => a == b,
        },
{
    if let (Reading::Members(x), Reading::Members(y)) = (a, b) {
        assert forall|i: int| 0 <= i < x.len() implies #[trigger] said_under_its_key(x, i, y) by {
            let member = x[i];
        }
    }
}

/// Whether some member of `y` has the key of the member `i` of `x` and says the same.
pub open spec fn said_under_its_key(
    x: Seq<(Seq<char>, Reading)>,
    i: int,
    y: Seq<(Seq<char>, Reading)>,
) -> bool {
    exists|j: int|
        0 <= j < y.len() && x[i].0 == (#[trigger] y[j]).0 && says_the_same(x[i].1, y[j].1)
}

} // verus!
