//! The events that control of a run puts on its log.

use vstd::prelude::*;
use vstd::string::StrSliceExecFns;

use crate::json::Json;

verus! {

/// A control was asked for.
pub const CONTROL_REQUESTED: &'static str = "control.requested";

/// A control was answered.
pub const CONTROL_APPLIED: &'static str = "control.applied";

/// The run is over; no later event belongs to its log.
pub const RUN_FINISHED: &'static str = "run.finished";

/// What a control asks for. Only an interrupt and a steer are offered; the
/// other kinds are known so that they can be refused.
#[derive(Debug, PartialEq)]
pub enum ControlKind {
    Interrupt,
    Steer,
    Answer,
    Unknown(String),
}

/// A request for control, as its sender wrote it.
#[derive(Debug, PartialEq)]
pub struct ControlRequestedPayload {
    pub control_id: String,
    pub kind: ControlKind,
    pub decision_id: Option<String>,
    pub option_id: Option<String>,
    pub text: Option<String>,
    pub truncated: Option<bool>,
    pub by: String,
    /// Members beyond the declared ones.
    pub extra: Vec<(String, Json)>,
}

/// Why a control was not applied. `Unknown` holds a harness's own words.
#[derive(Debug, PartialEq)]
pub enum ControlAppliedReason {
    NotLive,
    Unsupported,
    Unknown(String),
}

/// The answer to a request for control.
///
/// `by` names the principal that applied the control. Nobody here knows it, so
/// it stays empty rather than being made up.
#[derive(Debug, PartialEq)]
pub struct ControlAppliedPayload {
    pub control_id: String,
    pub ok: bool,
    pub by: Option<String>,
    pub reason: Option<ControlAppliedReason>,
    pub truncated: Option<bool>,
    pub landed_in: Option<String>,
    /// Members beyond the declared ones.
    pub extra: Vec<(String, Json)>,
}

/// What an event carries. `F` is the payload of a finished run, which is
/// carried to the log unread.
#[derive(Debug, PartialEq)]
pub enum EventPayload<F> {
    Requested(ControlRequestedPayload),
    Applied(ControlAppliedPayload),
    Finished(F),
}

/// An event that no sink has stamped yet.
#[derive(Debug, PartialEq)]
pub struct EventDraft<F> {
    pub event_type: String,
    pub payload: EventPayload<F>,
    pub captured_at: Option<String>,
}

/// What a [`ControlAppliedReason`] says.
pub enum ReasonView {
    NotLive,
    Unsupported,
    Unknown(Seq<char>),
}

/// What a [`ControlAppliedPayload`] says.
pub struct AppliedView {
    pub control_id: Seq<char>,
    pub ok: bool,
    pub by: Option<Seq<char>>,
    pub reason: Option<ReasonView>,
    pub truncated: Option<bool>,
    pub landed_in: Option<Seq<char>>,
    pub extra: Seq<(String, Json)>,
}

/// What an [`EventPayload`] says.
pub enum PayloadView<F> {
    Requested(ControlRequestedPayload),
    Applied(AppliedView),
    Finished(F),
}

/// What an [`EventDraft`] says.
pub struct DraftView<F> {
    pub event_type: Seq<char>,
    pub payload: PayloadView<F>,
    pub captured_at: Option<Seq<char>>,
}

/// What an optional string says.
pub open spec fn text_view(text: Option<String>) -> Option<Seq<char>> {
    match text {
        Some(s) => Some(s@),
        None => None,
    }
}

impl View for ControlAppliedReason {
    type V = ReasonView;

    open spec fn view(&self) -> ReasonView {
        match *self {
            ControlAppliedReason::NotLive => ReasonView::NotLive,
            ControlAppliedReason::Unsupported => ReasonView::Unsupported,
            ControlAppliedReason::Unknown(words) => ReasonView::Unknown(words@),
        }
    }
}

/// What an optional reason says.
pub open spec fn reason_view(reason: Option<ControlAppliedReason>) -> Option<ReasonView> {
    match reason {
        Some(r) => Some(r@),
        None => None,
    }
}

impl View for ControlAppliedPayload {
    type V = AppliedView;

    open spec fn view(&self) -> AppliedView {
        AppliedView {
            control_id: self.control_id@,
            ok: self.ok,
            by: text_view(self.by),
            reason: reason_view(self.reason),
            truncated: self.truncated,
            landed_in: text_view(self.landed_in),
            extra: self.extra@,
        }
    }
}

impl<F> View for EventPayload<F> {
    type V = PayloadView<F>;

    open spec fn view(&self) -> PayloadView<F> {
        match *self {
            EventPayload::Requested(request) => PayloadView::Requested(request),
            EventPayload::Applied(answer) => PayloadView::Applied(answer@),
            EventPayload::Finished(payload) => PayloadView::Finished(payload),
        }
    }
}

impl<F> View for EventDraft<F> {
    type V = DraftView<F>;

    open spec fn view(&self) -> DraftView<F> {
        DraftView {
            event_type: self.event_type@,
            payload: self.payload@,
            captured_at: text_view(self.captured_at),
        }
    }
}

/// The first scalars of a text, and whether anything was cut off.
#[derive(Debug, PartialEq)]
pub struct Excerpt {
    pub text: String,
    pub truncated: bool,
}

/// The first `limit` scalars of `text`, all of it where it has no more.
pub open spec fn first_scalars(text: Seq<char>, limit: nat) -> Seq<char> {
    if text.len() <= limit {
        text
    } else {
        text.take(limit as int)
    }
}

/// Bound `text` to its first `limit` scalars.
pub fn excerpt(text: &str, limit: usize) -> (bounded: Excerpt)
    ensures
        bounded.text@ == first_scalars(text@, limit as nat),
        bounded.truncated == (text@.len() > limit),
{
    if text.unicode_len() <= limit {
        Excerpt { text: text.to_owned(), truncated: false }
    } else {
        Excerpt { text: text.substring_char(0, limit).to_owned(), truncated: true }
    }
}

/// The event that records a request.
pub open spec fn requested<F>(request: ControlRequestedPayload) -> DraftView<F> {
    DraftView {
        event_type: CONTROL_REQUESTED@,
        payload: PayloadView::Requested(request),
        captured_at: None,
    }
}

/// The reason that is recorded for `reason`: a harness's own words are bounded.
pub open spec fn recorded_reason(reason: Option<ReasonView>, limit: nat) -> Option<ReasonView> {
    match reason {
        Some(ReasonView::Unknown(words)) => Some(ReasonView::Unknown(first_scalars(words, limit))),
        _ => reason,
    }
}

/// The truncation flag that is recorded with `reason`: set where words were cut
/// off, absent everywhere else.
pub open spec fn recorded_truncation(reason: Option<ReasonView>, limit: nat) -> Option<bool> {
    match reason {
        Some(ReasonView::Unknown(words)) => if words.len() > limit {
            Some(true)
        } else {
            None
        },
        _ => None,
    }
}

/// The event that answers the request `control_id`.
pub open spec fn applied<F>(
    control_id: Seq<char>,
    ok: bool,
    reason: Option<ReasonView>,
    landed_in: Option<Seq<char>>,
    limit: nat,
) -> DraftView<F> {
    DraftView {
        event_type: CONTROL_APPLIED@,
        payload: PayloadView::Applied(
            AppliedView {
                control_id,
                ok,
                by: None,
                reason: recorded_reason(reason, limit),
                truncated: recorded_truncation(reason, limit),
                landed_in,
                extra: Seq::empty(),
            },
        ),
        captured_at: None,
    }
}

/// The event that ends a run.
pub open spec fn finished<F>(payload: F) -> DraftView<F> {
    DraftView {
        event_type: RUN_FINISHED@,
        payload: PayloadView::Finished(payload),
        captured_at: None,
    }
}

/// An event of the given type that has not been captured from anywhere.
fn draft<F>(event_type: &str, payload: EventPayload<F>) -> (event: EventDraft<F>)
    ensures
        event@ == (DraftView { event_type: event_type@, payload: payload@, captured_at: None }),
{
    EventDraft { event_type: event_type.to_owned(), payload, captured_at: None }
}

/// Record a request.
pub fn requested_draft<F>(payload: ControlRequestedPayload) -> (event: EventDraft<F>)
    ensures
        event@ == requested::<F>(payload),
{
    draft(CONTROL_REQUESTED, EventPayload::Requested(payload))
}

/// Record an answer, bounding a harness's own diagnostic words to `limit`
/// scalars. `Unknown` is the slot for bounded prose, not a place for a value
/// that has a member of its own. The other reasons carry no free text and never
/// a truncation flag.
pub fn applied_draft<F>(
    control_id: &str,
    ok: bool,
    reason: Option<ControlAppliedReason>,
    landed_in: Option<String>,
    limit: usize,
) -> (event: EventDraft<F>)
    ensures
        event@ == applied::<F>(
            control_id@,
            ok,
            reason_view(reason),
            text_view(landed_in),
            limit as nat,
        ),
{
    let (reason, truncated) = match reason {
        Some(ControlAppliedReason::Unknown(diagnostic)) => {
            let bounded = excerpt(diagnostic.as_str(), limit);
            let truncated = if bounded.truncated {
                Some(true)
            } else {
                None
            };
            (Some(ControlAppliedReason::Unknown(bounded.text)), truncated)
        },
        reason => (reason, None),
    };
    let answer = ControlAppliedPayload {
        control_id: control_id.to_owned(),
        ok,
        by: None,
        reason,
        truncated,
        landed_in,
        extra: Vec::new(),
    };
    assert(answer@.extra =~= Seq::empty());
    draft(CONTROL_APPLIED, EventPayload::Applied(answer))
}

/// Record the end of a run.
pub fn finished_draft<F>(payload: F) -> (event: EventDraft<F>)
    ensures
        event@ == finished(payload),
{
    draft(RUN_FINISHED, EventPayload::Finished(payload))
}

} // verus!
