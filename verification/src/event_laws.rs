//! What the events of a run say, and how much of a harness's words they keep.

use vstd::prelude::*;

use crate::event::{
    applied, finished, first_scalars, requested, ControlAppliedReason, ControlRequestedPayload,
    EventDraft, EventPayload, PayloadView, ReasonView,
};

verus! {

/// Whether `view` is what the optional string says.
pub open spec fn shows(text: Option<String>, view: Option<Seq<char>>) -> bool {
    match text {
        Some(words) => view == Some(words@),
        None => view is None,
    }
}

/// Whether `view` is what the optional reason says.
pub open spec fn shows_reason(
    reason: Option<ControlAppliedReason>,
    view: Option<ReasonView>,
) -> bool {
    match reason {
        None => view is None,
        Some(ControlAppliedReason::NotLive) => view == Some(ReasonView::NotLive),
        Some(ControlAppliedReason::Unsupported) => view == Some(ReasonView::Unsupported),
        Some(ControlAppliedReason::Unknown(words)) => view == Some(ReasonView::Unknown(words@)),
    }
}

/// What is said of an event is what its fields hold, every one of them.
pub proof fn law_every_field_of_an_event_shows<F>(event: EventDraft<F>)
    ensures
        event@.event_type == event.event_type@,
        shows(event.captured_at, event@.captured_at),
        match event.payload {
            EventPayload::Requested(request) => event@.payload == PayloadView::<F>::Requested(
                request,
            ),
            EventPayload::Finished(payload) => event@.payload == PayloadView::Finished(payload),
            EventPayload::Applied(answer) => {
                &&& event@.payload matches PayloadView::Applied(view)
                &&& view.control_id == answer.control_id@
                &&& view.ok == answer.ok
                &&& shows(answer.by, view.by)
                &&& shows_reason(answer.reason, view.reason)
                &&& view.truncated == answer.truncated
                &&& shows(answer.landed_in, view.landed_in)
                &&& view.extra == answer.extra@
            },
        },
{
}

/// An excerpt has as many scalars as the limit allows, and they are the first ones: a text
/// within the limit is kept whole.
pub proof fn law_excerpt_keeps_all_that_fits(text: Seq<char>, limit: nat)
    ensures
        first_scalars(text, limit).len() == if text.len() < limit {
            text.len()
        } else {
            limit
        },
        forall|i: int|
            0 <= i < first_scalars(text, limit).len() ==> #[trigger] first_scalars(text, limit)[i]
                == text[i],
        text.len() <= limit ==> first_scalars(text, limit) == text,
{
}

/// An answer carries the id, the verdict and the tool call that it was made with. A reason
/// that is no prose is kept as it is, without a flag. Of a harness's words as many are kept
/// as the limit allows, from the first on, and the flag is set if and only if some are not:
/// words within the limit are kept whole and without a flag.
pub proof fn law_answer_carries_what_it_was_made_with<F>(
    control_id: Seq<char>,
    ok: bool,
    reason: Option<ReasonView>,
    landed_in: Option<Seq<char>>,
    limit: nat,
)
    ensures
        ({
            let event = applied::<F>(control_id, ok, reason, landed_in, limit);
            &&& event.event_type == "control.applied"@
            &&& event.captured_at is None
            &&& event.payload matches PayloadView::Applied(answer)
            &&& answer.control_id == control_id
            &&& answer.ok == ok
            &&& answer.by is None
            &&& answer.landed_in == landed_in
            &&& answer.extra.len() == 0
            &&& match reason {
                Some(ReasonView::Unknown(words)) => {
                    &&& answer.reason matches Some(ReasonView::Unknown(kept))
                    &&& kept.len() == if words.len() < limit {
                        words.len()
                    } else {
                        limit
                    }
                    &&& forall|i: int| 0 <= i < kept.len() ==> #[trigger] kept[i] == words[i]
                    &&& words.len() > limit ==> answer.truncated == Some(true)
                    &&& words.len() <= limit ==> answer.truncated is None && kept == words
                },
                _ => answer.reason == reason && answer.truncated is None,
            }
        }),
{
    law_excerpt_keeps_all_that_fits(
        match reason {
            Some(ReasonView::Unknown(words)) => words,
            _ => Seq::empty(),
        },
        limit,
    );
}

/// The record of a request is the request, field for field.
pub proof fn law_request_is_recorded_as_sent<F>(request: ControlRequestedPayload)
    ensures
        requested::<F>(request).event_type == "control.requested"@,
        requested::<F>(request).captured_at is None,
        requested::<F>(request).payload matches PayloadView::Requested(sent) && {
            &&& sent.control_id == request.control_id
            &&& sent.kind == request.kind
            &&& sent.decision_id == request.decision_id
            &&& sent.option_id == request.option_id
            &&& sent.text == request.text
            &&& sent.truncated == request.truncated
            &&& sent.by == request.by
            &&& sent.extra == request.extra
        },
{
}

/// The end of a run carries the payload that was given.
pub proof fn law_end_carries_its_payload<F>(payload: F)
    ensures
        finished(payload).event_type == "run.finished"@,
        finished(payload).captured_at is None,
        finished(payload).payload == PayloadView::Finished(payload),
{
}

} // verus!
