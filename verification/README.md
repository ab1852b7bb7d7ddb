# umwelt-runtime

The control and trace core of a harness runtime, written in Verus.

A run is one harness session. Two verbs control it: `interrupt` ends its process
and closes its log, `steer` queues the text of the next turn until the process
ends normally. What was asked for and what came of it goes to a sink as events.
Trace records go to a writer as bounded JSON lines.

## Layout

    src/event.rs           the events that control records
    src/sink.rs            where they go, and what watches the run
    src/resume.rs          how the next turn of a session is started
    src/control.rs         RunControl: interrupt, steer, the end of a process
    src/control_laws.rs    what holds of a run, whatever its callers do
    src/json.rs            JSON values with distinct keys
    src/canonical.rs       sorting the keys of nested objects
    src/canonical_laws.rs  what that order guarantees
    src/serial.rs          indexmap and serde_json, and what is trusted of them
    src/trace.rs           trace records and their lines
    src/trace_laws.rs      what a line owes to the operator's order
    src/reading.rs         what a compact JSON text says
    src/reading_laws.rs    what a line says, given what its parts say
    src/words.rs           numbers in words
    app/                   processes, writers, `std` errors, the event vocabulary
    tests/                 the library in use

Everything under `src/` is verified. The contracts of the outside functions in
`src/serial.rs`, and of `serde_json::Number`'s `clone` and `==` in `src/json.rs`, are
trusted: each names the function it speaks of.

`RunControl`'s methods are specified over two histories, the events a sink was
offered (refused ones included) and the resumes a resumer was asked for. Neither
has to be kept at run time. The closure that ends a process is handed the sink, and
may be called only with one that has just taken the request: that is how a contract
says when the process is ended, and when it is left alone.

That a line reads back as its record is stated over `read_value`, the grammar of
compact JSON as a specification: no parser is called or trusted. What is trusted is
that `serde_json::to_vec` writes, of a value without floating-point numbers, a text
that says the value.

The `ethogram` vocabulary reaches the library as plain values only: what it says of
a request, the size of an excerpt, and the payload of a finished run, which is
carried unread. `app/vocabulary.rs` makes the calls.
