//! The control and trace core of a harness runtime.
//!
//! A run is one harness session. [`RunControl`] carries the two verbs that a run
//! can be controlled with, `interrupt` and `steer`, and records what came of them
//! through a [`Sink`]. [`append_trace`] writes bounded trace records whose bytes
//! do not depend on how a producer built the objects inside them.

pub mod canonical;
pub mod canonical_laws;
pub mod control;
pub mod control_laws;
pub mod event;
pub mod event_laws;
pub mod json;
pub mod json_laws;
pub mod reading;
pub mod reading_laws;
pub mod record_laws;
pub mod resume;
pub mod serial;
pub mod sink;
pub mod trace;
pub mod trace_laws;
pub mod words;

pub use canonical::sorted_nested;
pub use control::{ControlError, ProcessExit, RunCaps, RunControl};
pub use event::{
    excerpt, ControlAppliedPayload, ControlAppliedReason, ControlKind, ControlRequestedPayload,
    EventDraft, EventPayload, Excerpt, CONTROL_APPLIED, CONTROL_REQUESTED, RUN_FINISHED,
};
pub use json::{Json, JsonObject};
pub use resume::{
    resume_started, ClaudeSessionResumer, ResumeError, ResumedSession, SessionResumer,
    UnsupportedResumer,
};
pub use sink::{MemorySink, Sink, Watchdog};
pub use trace::{
    append_trace, framed_line, trace_line, trace_written, TraceAppend, TraceAppendError,
    TraceFactRecord, MAX_TRACE_BYTES,
};
