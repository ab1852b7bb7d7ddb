use indexmap::IndexMap;
use serde_json::{Number, Value};
use umwelt_runtime::{
    append_trace, framed_line, sorted_nested, trace_line, trace_written, Json, JsonObject, TraceAppend,
    TraceAppendError, TraceFactRecord, MAX_TRACE_BYTES,
};

fn text(words: &str) -> Json {
    Json::String(words.to_owned())
}

fn number(value: i64) -> Json {
    Json::Number(Number::from(value))
}

fn object(members: Vec<(&str, Json)>) -> Json {
    let mut object = JsonObject::new();
    for (key, value) in members {
        object.insert(key.to_owned(), value);
    }
    Json::Object(object)
}

fn map(members: Vec<(&str, Json)>) -> IndexMap<String, Json> {
    members
        .into_iter()
        .map(|(key, value)| (key.to_owned(), value))
        .collect()
}

fn from_value(value: Value) -> Json {
    match value {
        Value::Null => Json::Null,
        Value::Bool(b) => Json::Bool(b),
        Value::Number(n) => Json::Number(n),
        Value::String(s) => Json::String(s),
        Value::Array(items) => Json::Array(items.into_iter().map(from_value).collect()),
        Value::Object(members) => {
            let mut object = JsonObject::new();
            for (key, child) in members {
                object.insert(key, from_value(child));
            }
            Json::Object(object)
        }
    }
}

fn record(kind: &str, fact: IndexMap<String, Json>, narration: IndexMap<String, Json>) -> TraceAppend {
    TraceAppend {
        ts: "2030-01-02T03:04:05Z".to_owned(),
        kind: kind.to_owned(),
        fact,
        narration,
    }
}

#[test]
fn malformed_append_is_named_as_a_trace_error() {
    let error = append_trace(
        &mut Vec::new(),
        &TraceAppend {
            ts: String::new(),
            kind: "pass-started".to_owned(),
            fact: IndexMap::new(),
            narration: IndexMap::new(),
        },
    )
    .expect_err("empty trace timestamp must fail");
    assert!(matches!(error, TraceAppendError::Malformed));
    assert_eq!(
        error.message(),
        "malformed trace record: trace ts and kind must not be empty"
    );
}

#[test]
fn append_keeps_trace_jsonl_bytes_unchanged() {
    let record = record(
        "work-failed",
        map(vec![
            ("order_id", text("synthetic-order")),
            ("reason", text("operator-facing explanation")),
        ]),
        map(vec![("detail", text("local narration remains local"))]),
    );
    let expected = format!(
        "{}\n",
        r#"{"ts":"2030-01-02T03:04:05Z","kind":"work-failed","fact":{"order_id":"synthetic-order","reason":"operator-facing explanation"},"narration":{"detail":"local narration remains local"}}"#
    );
    let mut output = Vec::new();

    assert_eq!(
        append_trace(&mut output, &record).expect("append trace"),
        expected.as_bytes()
    );
    assert_eq!(output, expected.as_bytes());
}

#[test]
fn append_accepts_local_trace_kinds_without_classifying_them() {
    let record = record(
        "decision-taken",
        map(vec![("owner", text("synthetic-run"))]),
        IndexMap::new(),
    );
    let mut output = Vec::new();

    append_trace(&mut output, &record).expect("append local trace kind");
    assert!(String::from_utf8(output)
        .expect("trace UTF-8")
        .contains("decision-taken"));
}

#[test]
fn append_preserves_top_level_operator_order_but_sorts_nested_object_keys() {
    let parsed: IndexMap<String, Value> =
        serde_json::from_str(r#"{"zebra":{"zebra":1,"alpha":2},"alpha":3}"#)
            .expect("deserialize fact directly into an ordered map");
    let parsed = parsed
        .into_iter()
        .map(|(key, value)| (key, from_value(value)))
        .collect();
    let built = map(vec![
        (
            "zebra",
            object(vec![("zebra", number(1)), ("alpha", number(2))]),
        ),
        ("alpha", number(3)),
    ]);
    let expected = format!(
        "{}\n",
        r#"{"ts":"2030-01-02T03:04:05Z","kind":"nested-order-limit","fact":{"zebra":{"alpha":2,"zebra":1},"alpha":3},"narration":{}}"#
    );

    for fact in [parsed, built] {
        assert_eq!(
            append_trace(
                &mut Vec::new(),
                &record("nested-order-limit", fact, IndexMap::new())
            )
            .expect("append nested trace"),
            expected.as_bytes()
        );
    }
}

#[test]
fn append_sorts_nested_keys_regardless_of_serde_json_preserve_order() {
    let record = record(
        "nested-order-independent",
        map(vec![
            (
                "zebra",
                object(vec![
                    ("mango", number(1)),
                    ("apple", number(2)),
                    ("kiwi", object(vec![("yak", number(1)), ("bee", number(2))])),
                ]),
            ),
            ("alpha", number(3)),
        ]),
        map(vec![(
            "zulu",
            Json::Array(vec![
                object(vec![("delta", number(1)), ("charlie", number(2))]),
                object(vec![("bravo", number(3)), ("alpha", number(4))]),
            ]),
        )]),
    );
    let expected = format!(
        "{}\n",
        r#"{"ts":"2030-01-02T03:04:05Z","kind":"nested-order-independent","fact":{"zebra":{"apple":2,"kiwi":{"bee":2,"yak":1},"mango":1},"alpha":3},"narration":{"zulu":[{"charlie":2,"delta":1},{"alpha":4,"bravo":3}]}}"#
    );

    assert_eq!(
        append_trace(&mut Vec::new(), &record).expect("append nested trace"),
        expected.as_bytes()
    );
}

#[test]
fn a_record_without_a_kind_is_malformed_and_writes_nothing() {
    let mut output = b"earlier\n".to_vec();
    let result = append_trace(&mut output, &record("", IndexMap::new(), IndexMap::new()));
    assert_eq!(result, Err(TraceAppendError::Malformed));
    assert_eq!(output, b"earlier\n");
}

#[test]
fn appends_follow_each_other_on_lines_of_their_own() {
    let mut output = Vec::new();
    let first = record("first", IndexMap::new(), IndexMap::new());
    let second = record("second", IndexMap::new(), map(vec![("note", text("a\nb"))]));
    append_trace(&mut output, &first).expect("first");
    append_trace(&mut output, &second).expect("second");
    assert_eq!(
        String::from_utf8(output).expect("UTF-8"),
        format!(
            "{}\n{}\n",
            r#"{"ts":"2030-01-02T03:04:05Z","kind":"first","fact":{},"narration":{}}"#,
            r#"{"ts":"2030-01-02T03:04:05Z","kind":"second","fact":{},"narration":{"note":"a\nb"}}"#
        )
    );
}

#[test]
fn a_line_may_have_exactly_the_largest_number_of_bytes() {
    let padded = |n: usize| {
        record(
            "padded",
            map(vec![("pad", text(&"x".repeat(n)))]),
            IndexMap::new(),
        )
    };
    let frame = trace_line(&padded(0)).expect("frame").len();
    let fits = trace_line(&padded(MAX_TRACE_BYTES - frame)).expect("largest line");
    assert_eq!(fits.len(), 4096);
    assert_eq!(fits.last(), Some(&b'\n'));

    let mut output = Vec::new();
    let error = append_trace(&mut output, &padded(MAX_TRACE_BYTES - frame + 1))
        .expect_err("one byte too many");
    assert_eq!(error, TraceAppendError::TooLarge { bytes: 4097 });
    assert_eq!(error.message(), "trace record is 4097 bytes; maximum is 4096");
    assert!(output.is_empty());
}

#[test]
fn the_texts_of_a_record_are_put_on_one_line() {
    assert_eq!(
        framed_line(b"\"t\"", b"\"k\"", b"{\"a\":1}", b"{}").expect("short"),
        b"{\"ts\":\"t\",\"kind\":\"k\",\"fact\":{\"a\":1},\"narration\":{}}\n"
    );
    assert_eq!(
        framed_line(&[b'x'; 4096], b"", b"", b""),
        Err(TraceAppendError::TooLarge { bytes: 4096 + 37 })
    );
}

#[test]
fn sizes_are_spelled_in_decimal() {
    let message = |bytes: usize| TraceAppendError::TooLarge { bytes }.message();
    assert_eq!(message(0), "trace record is 0 bytes; maximum is 4096");
    assert_eq!(message(10), "trace record is 10 bytes; maximum is 4096");
    assert_eq!(
        message(usize::MAX),
        format!("trace record is {} bytes; maximum is 4096", usize::MAX)
    );
}

#[test]
fn a_failed_write_is_reported_in_the_words_of_the_writer() {
    let line = b"{}\n".to_vec();
    assert_eq!(trace_written(line.clone(), Ok(())), Ok(line.clone()));
    let error = trace_written(line, Err("disk full".to_owned())).expect_err("failed write");
    assert_eq!(error, TraceAppendError::Write("disk full".to_owned()));
    assert_eq!(error.message(), "could not append trace record: disk full");
}

#[test]
fn every_sort_of_value_is_written() {
    let record = TraceAppend {
        ts: "a \"stamp\"\\".to_owned(),
        kind: "tab\tand \u{1}".to_owned(),
        fact: map(vec![
            ("null", Json::Null),
            ("yes", Json::Bool(true)),
            ("no", Json::Bool(false)),
            ("least", number(i64::MIN)),
            ("most", Json::Number(Number::from(u64::MAX))),
            ("half", Json::Number(Number::from_f64(0.5).expect("finite"))),
            ("list", Json::Array(vec![number(2), number(1), Json::Array(vec![])])),
            ("empty", object(vec![])),
            ("k\"ey", text("line\nfeed")),
        ]),
        narration: IndexMap::new(),
    };
    assert_eq!(
        String::from_utf8(trace_line(&record).expect("line")).expect("UTF-8"),
        format!(
            "{}\n",
            r#"{"ts":"a \"stamp\"\\","kind":"tab\tand \u0001","fact":{"null":null,"yes":true,"no":false,"least":-9223372036854775808,"most":18446744073709551615,"half":0.5,"list":[2,1,[]],"empty":{},"k\"ey":"line\nfeed"},"narration":{}}"#
        )
    );
}

#[test]
fn nested_keys_are_ordered_by_their_bytes() {
    let keys = ["\u{1F600}", "z", "", "\u{FB00}", "a", "Z", "\u{E9}", "aa"];
    let unsorted = object(keys.iter().map(|key| (*key, Json::Null)).collect());
    let Json::Object(sorted) = sorted_nested(&unsorted) else {
        panic!("expected an object");
    };
    let order: Vec<&str> = sorted.members().iter().map(|(key, _)| key.as_str()).collect();
    assert_eq!(
        order,
        ["", "Z", "a", "aa", "z", "\u{E9}", "\u{FB00}", "\u{1F600}"]
    );
}

#[test]
fn sorting_twice_is_sorting_once_and_arrays_keep_their_order() {
    let value = Json::Array(vec![
        object(vec![("b", number(1)), ("a", number(2))]),
        text("z"),
        text("a"),
    ]);
    let written = |value: Json| {
        String::from_utf8(
            trace_line(&record("order", map(vec![("v", value)]), IndexMap::new())).expect("line"),
        )
        .expect("UTF-8")
    };
    let once = sorted_nested(&value);
    let Json::Array(items) = &once else {
        panic!("expected an array");
    };
    assert_eq!(items[1..], [text("z"), text("a")]);
    let Json::Object(first) = &items[0] else {
        panic!("expected an object");
    };
    assert_eq!(
        *first.members(),
        vec![("a".to_owned(), number(2)), ("b".to_owned(), number(1))]
    );
    assert_eq!(format!("{:?}", sorted_nested(&once)), format!("{once:?}"));
    assert_eq!(written(once), written(value));
}

#[test]
fn the_order_of_nested_members_plays_no_part_in_equality() {
    let one = || object(vec![("x", number(1)), ("y", object(vec![("p", Json::Null), ("q", text("r"))]))]);
    let other = || object(vec![("y", object(vec![("q", text("r")), ("p", Json::Null)])), ("x", number(1))]);
    assert_eq!(one(), other());
    assert_eq!(
        record("same", map(vec![("v", one())]), map(vec![("w", other())])),
        record("same", map(vec![("v", other())]), map(vec![("w", one())]))
    );
    assert_ne!(one(), object(vec![("x", number(1))]));
    assert_ne!(object(vec![("x", number(1))]), object(vec![("x", number(2))]));
    assert_ne!(object(vec![("x", number(1))]), object(vec![("y", number(1))]));
    assert_ne!(
        Json::Array(vec![number(1), number(2)]),
        Json::Array(vec![number(2), number(1)])
    );
    assert_ne!(Json::Null, Json::Bool(false));
    assert_ne!(Json::Bool(true), Json::Bool(false));
    assert_ne!(text("1"), number(1));
    assert_eq!(
        Json::Number(Number::from_f64(0.0).expect("finite")),
        Json::Number(Number::from_f64(-0.0).expect("finite"))
    );
    assert_ne!(number(1), Json::Number(Number::from_f64(1.0).expect("finite")));
}

#[test]
fn a_clone_holds_what_was_cloned() {
    let append = record(
        "cloned",
        map(vec![
            ("z", object(vec![("b", Json::Array(vec![number(1), Json::Null])), ("a", Json::Bool(true))])),
            ("a", Json::Number(Number::from_f64(-0.0).expect("finite"))),
        ]),
        map(vec![("note", text("words"))]),
    );
    let copy = append.clone();
    assert_eq!(copy, append);
    assert_eq!(format!("{copy:?}"), format!("{append:?}"));
    assert_eq!(trace_line(&copy), trace_line(&append));
    let fact = TraceFactRecord {
        ts: append.ts.clone(),
        kind: append.kind.clone(),
        fact: append.fact.clone(),
    };
    assert_eq!(format!("{:?}", fact.clone()), format!("{fact:?}"));
}

#[test]
fn a_line_reads_back_as_its_record() {
    let append = record(
        "read \"back\"",
        map(vec![
            ("zebra", object(vec![("mango", number(-1)), ("apple", text("a\nb\u{1F600}"))])),
            ("alpha", Json::Array(vec![Json::Null, Json::Bool(true), number(i64::MIN)])),
        ]),
        map(vec![("z", text("")), ("a", object(vec![]))]),
    );
    let line = trace_line(&append).expect("line");
    let read: IndexMap<String, Value> = serde_json::from_slice(&line).expect("one JSON object");
    assert_eq!(
        read.keys().collect::<Vec<_>>(),
        ["ts", "kind", "fact", "narration"]
    );
    assert_eq!(from_value(read["ts"].clone()), text(&append.ts));
    assert_eq!(from_value(read["kind"].clone()), text(&append.kind));
    for (key, given) in [("fact", &append.fact), ("narration", &append.narration)] {
        let members: IndexMap<String, Json> = serde_json::from_slice::<IndexMap<String, Value>>(
            &part(&line, key, if key == "fact" { ",\"narration\":" } else { "}\n" }),
        )
        .expect("members")
        .into_iter()
        .map(|(key, value)| (key, from_value(value)))
        .collect();
        assert_eq!(
            members.keys().collect::<Vec<_>>(),
            given.keys().collect::<Vec<_>>()
        );
        assert_eq!(members, *given);
    }
}

#[test]
fn every_character_reads_back() {
    let every: String = (0u8..128)
        .map(char::from)
        .chain(['\u{80}', '\u{E9}', '\u{2028}', '\u{FFFD}', '\u{10FFFF}'])
        .collect();
    let append = TraceAppend {
        ts: every.clone(),
        kind: every.clone(),
        fact: map(vec![(every.as_str(), text(&every))]),
        narration: IndexMap::new(),
    };
    let line = trace_line(&append).expect("line");
    assert_eq!(line.iter().filter(|byte| **byte == b'\n').count(), 1);
    let read: IndexMap<String, Value> = serde_json::from_slice(&line).expect("one JSON object");
    assert_eq!(from_value(read["ts"].clone()), text(&every));
    assert_eq!(from_value(read["kind"].clone()), text(&every));
    assert_eq!(
        from_value(read["fact"].clone()),
        object(vec![(every.as_str(), text(&every))])
    );
}

#[test]
fn integers_read_back_and_compare_by_value() {
    let integers = [i64::MIN, -10, -1, 0, 1, 9, 10, 100, i64::MAX];
    let items = integers.iter().map(|i| number(*i)).collect();
    let append = record("integers", map(vec![("all", Json::Array(items))]), IndexMap::new());
    let line = trace_line(&append).expect("line");
    let read: IndexMap<String, Value> = serde_json::from_slice(&line).expect("one JSON object");
    let Json::Object(fact) = from_value(read["fact"].clone()) else {
        panic!("expected an object");
    };
    assert_eq!(fact.members()[0].1, append.fact["all"]);
    assert_eq!(number(7), Json::Number(Number::from(7u64)));
    assert_ne!(number(-7), Json::Number(Number::from(7u64)));
}

/// The text of a member of a line, up to what follows it.
fn part(line: &[u8], key: &str, next: &str) -> Vec<u8> {
    let line = String::from_utf8(line.to_vec()).expect("UTF-8");
    let (_, rest) = line.split_once(&format!(",\"{key}\":")).expect("member");
    let (text, _) = rest.split_once(next).expect("next member");
    // The last member is followed by the end of the object around it.
    text.as_bytes().to_vec()
}

#[test]
fn nested_order_does_not_reach_the_line_but_the_order_of_the_top_level_does() {
    let inner = || object(vec![("x", number(1)), ("y", number(2))]);
    let renni = || object(vec![("y", number(2)), ("x", number(1))]);
    let line = |fact| trace_line(&record("order", fact, IndexMap::new())).expect("line");
    let plain = line(map(vec![("q", inner()), ("p", renni())]));
    assert_eq!(line(map(vec![("q", renni()), ("p", inner())])), plain);
    assert_ne!(line(map(vec![("p", inner()), ("q", inner())])), plain);
}

#[test]
fn a_key_that_is_set_again_keeps_its_place() {
    let mut object = JsonObject::new();
    assert_eq!(object.insert("one".to_owned(), number(1)), None);
    assert_eq!(object.insert("two".to_owned(), number(2)), None);
    assert_eq!(object.insert("one".to_owned(), number(3)), Some(number(1)));
    assert_eq!(
        *object.members(),
        vec![("one".to_owned(), number(3)), ("two".to_owned(), number(2))]
    );
}

#[test]
fn a_fact_record_is_compared_by_what_it_holds() {
    let fact = |kind: &str| TraceFactRecord {
        ts: "2030-01-02T03:04:05Z".to_owned(),
        kind: kind.to_owned(),
        fact: map(vec![("owner", text("synthetic-run"))]),
    };
    assert_eq!(fact("started"), fact("started"));
    assert_ne!(fact("started"), fact("ended"));
}
