//! What each call puts on the log, field by field.
//!
//! The laws here speak of the offers that a sink was made and of the fields of the
//! events in them, next to the arguments of the call: not of how the events are built.

use vstd::prelude::*;

use crate::control::{
    asks_to_resume, can_end, ended, ends_process, exit_outcome, interrupt_outcome, just_recorded,
    may_end_process, offers_terminal, refusal_reason, steer_outcome, stopped_by, watchdog_sources,
    words_of, ControlError, ControlState, ProcessExit, Steer,
};
use crate::control_laws::{follows, history, Call, Deed};
use crate::event::{ControlRequestedPayload, PayloadView, ReasonView};
use crate::resume::{Asked, Refusal};
use crate::sink::{Offer, Sink, Watchdog};

verus! {

/// Whether `offer` is the record of `request` on the log of `run_id`: every field of the
/// request is there as it was sent.
pub open spec fn records_request<F, E>(
    offer: Offer<F, E>,
    run_id: Seq<char>,
    request: ControlRequestedPayload,
) -> bool {
    &&& offer.run_id == run_id
    &&& offer.draft.event_type == "control.requested"@
    &&& offer.draft.captured_at is None
    &&& offer.draft.payload matches PayloadView::Requested(sent)
    &&& sent.control_id == request.control_id
    &&& sent.kind == request.kind
    &&& sent.decision_id == request.decision_id
    &&& sent.option_id == request.option_id
    &&& sent.text == request.text
    &&& sent.truncated == request.truncated
    &&& sent.by == request.by
    &&& sent.extra == request.extra
}

/// Whether `offer` is an answer on the log of `run_id` with these fields. Who applied
/// the control is not made up, and nothing is added.
pub open spec fn records_answer<F, E>(
    offer: Offer<F, E>,
    run_id: Seq<char>,
    control_id: Seq<char>,
    ok: bool,
    reason: Option<ReasonView>,
    truncated: Option<bool>,
    landed_in: Option<Seq<char>>,
) -> bool {
    &&& offer.run_id == run_id
    &&& offer.draft.event_type == "control.applied"@
    &&& offer.draft.captured_at is None
    &&& offer.draft.payload matches PayloadView::Applied(answer)
    &&& answer.control_id == control_id
    &&& answer.ok == ok
    &&& answer.by is None
    &&& answer.reason == reason
    &&& answer.truncated == truncated
    &&& answer.landed_in == landed_in
    &&& answer.extra.len() == 0
}

/// Whether `offer` is the answer that the steer or interrupt `control_id` came to
/// nothing, because no process is running.
pub open spec fn records_rejection<F, E>(
    offer: Offer<F, E>,
    run_id: Seq<char>,
    control_id: Seq<char>,
) -> bool {
    records_answer(offer, run_id, control_id, false, Some(ReasonView::NotLive), None, None)
}

/// Whether `offer` is the end of the run `run_id`, with `payload` as it was given.
pub open spec fn records_end<F, E>(offer: Offer<F, E>, run_id: Seq<char>, payload: F) -> bool {
    &&& offer.run_id == run_id
    &&& offer.draft.event_type == "run.finished"@
    &&& offer.draft.captured_at is None
    &&& offer.draft.payload == PayloadView::Finished(payload)
}

/// Whether `after` is `before` with more behind it.
pub open spec fn grows<T>(before: Seq<T>, after: Seq<T>) -> bool {
    &&& before.len() <= after.len()
    &&& forall|i: int| 0 <= i < before.len() ==> #[trigger] after[i] == before[i]
}

/// Whether what is behind `before` was offered as long as the sink took it, and the
/// result tells how that ended: success where the last offer was taken, which must be
/// the one numbered `count`, and the sink's own fault where it was refused.
pub open spec fn offered_in_turn<F, E>(
    before: Seq<Offer<F, E>>,
    after: Seq<Offer<F, E>>,
    count: int,
    result: Result<(), ControlError<E>>,
) -> bool {
    &&& grows(before, after)
    &&& 0 < after.len() - before.len() <= count
    &&& forall|i: int|
        before.len() <= i < after.len() - 1 ==> (#[trigger] after[i]).fault is None
    &&& match after[after.len() - 1].fault {
        None => after.len() - before.len() == count && result is Ok,
        Some(fault) => result == Err::<(), ControlError<E>>(ControlError::Sink(fault)),
    }
}

/// Whether `post` is `pre` but for the running process, the closed log and the steers
/// that wait.
pub open spec fn same_run(pre: ControlState, post: ControlState) -> bool {
    &&& post.run_id == pre.run_id
    &&& post.session_id == pre.session_id
    &&& post.kill_grace_ms == pre.kill_grace_ms
    &&& post.max_excerpt_scalars == pre.max_excerpt_scalars
}

/// Whether the steers of `now` are those of `then` without the first `gone`, in order.
pub open spec fn without_first(then: Seq<Steer>, now: Seq<Steer>, gone: int) -> bool {
    &&& 0 <= gone <= then.len()
    &&& now.len() == then.len() - gone
    &&& forall|i: int| 0 <= i < now.len() ==> #[trigger] now[i] == then[i + gone]
}

/// How many of `count` things are among the first `reached`.
pub open spec fn at_most(reached: int, count: int) -> int {
    if reached < 0 {
        0
    } else if reached < count {
        reached
    } else {
        count
    }
}

/// What a steer does, for every input. On a closed run, for an invalid request and for
/// one of another kind it is refused and nothing happens. Otherwise the request is
/// recorded as it was sent. On a live run it then waits, behind the others, with its id
/// and its text; on a run that is not live it is answered as such.
pub proof fn law_steer_in_full<F, E>(
    pre: ControlState,
    request: ControlRequestedPayload,
    validated: Result<(), String>,
    before: Seq<Offer<F, E>>,
    post: ControlState,
    after: Seq<Offer<F, E>>,
    result: Result<(), ControlError<E>>,
)
    requires
        steer_outcome(pre, request, validated, before, post, after, result),
    ensures
        pre.terminal_emitted ==> result == Err::<(), ControlError<E>>(ControlError::NotLive),
        !pre.terminal_emitted && validated is Err ==> result == Err::<(), ControlError<E>>(
            ControlError::InvalidRequest(validated->Err_0),
        ),
        !pre.terminal_emitted && validated is Ok && request.kind !is Steer ==> (result matches Err(
            ControlError::WrongKind { expected },
        ) && expected@ == "steer"@),
        pre.terminal_emitted || validated is Err || request.kind !is Steer ==> post == pre && after
            == before,
        !pre.terminal_emitted && validated is Ok && request.kind is Steer ==> {
            let at = before.len() as int;
            &&& offered_in_turn(
                before,
                after,
                if pre.live {
                    1
                } else {
                    2
                },
                result,
            )
            &&& records_request(after[at], pre.run_id, request)
            &&& after.len() > at + 1 ==> records_rejection(
                after[at + 1],
                pre.run_id,
                request.control_id@,
            )
            &&& same_run(pre, post)
            &&& post.live == pre.live
            &&& !post.terminal_emitted
            &&& grows(pre.pending, post.pending)
            &&& post.pending.len() == pre.pending.len() + if pre.live && result is Ok {
                1int
            } else {
                0int
            }
            &&& pre.live && result is Ok ==> {
                let waiting = post.pending[pre.pending.len() as int];
                &&& waiting.control_id == request.control_id@
                &&& match request.text {
                    Some(text) => waiting.text == text@,
                    None => waiting.text.len() == 0,
                }
            }
        },
{
}

/// What an interrupt does, for every input and whatever came of ending the process. On a
/// closed run, for an invalid request and for one of another kind it is refused and
/// nothing happens. Otherwise the request is recorded as it was sent. On a run that is
/// not live it is answered as such. On a live run whose process was not ended nothing
/// more happens. Where it was ended, the request is answered as carried out, in the tool
/// call that was open; then every steer that waited is rejected, oldest first; then the
/// run ends. The log is closed if and only if all of that was taken.
pub proof fn law_interrupt_in_full<F, E>(
    pre: ControlState,
    request: ControlRequestedPayload,
    validated: Result<(), String>,
    stopped: Result<(), ControlError<E>>,
    landed_in: Option<Seq<char>>,
    payload: F,
    before: Seq<Offer<F, E>>,
    post: ControlState,
    after: Seq<Offer<F, E>>,
    result: Result<(), ControlError<E>>,
)
    requires
        interrupt_outcome(
            pre,
            request,
            validated,
            stopped,
            landed_in,
            payload,
            before,
            post,
            after,
            result,
        ),
    ensures
        pre.terminal_emitted ==> result == Err::<(), ControlError<E>>(ControlError::NotLive),
        !pre.terminal_emitted && validated is Err ==> result == Err::<(), ControlError<E>>(
            ControlError::InvalidRequest(validated->Err_0),
        ),
        !pre.terminal_emitted && validated is Ok && request.kind !is Interrupt ==> (
        result matches Err(ControlError::WrongKind { expected }) && expected@ == "interrupt"@),
        pre.terminal_emitted || validated is Err || request.kind !is Interrupt ==> post == pre
            && after == before,
        !pre.terminal_emitted && validated is Ok && request.kind is Interrupt ==> {
            let at = before.len() as int;
            let waiting = pre.pending.len() as int;
            &&& grows(before, after)
            &&& after.len() > at
            &&& records_request(after[at], pre.run_id, request)
            &&& after[at].fault is Some ==> {
                &&& after.len() == at + 1
                &&& result == Err::<(), ControlError<E>>(ControlError::Sink(after[at].fault->0))
                &&& post == pre
            }
            &&& !pre.live ==> {
                &&& offered_in_turn(before, after, 2, result)
                &&& after.len() > at + 1 ==> records_rejection(
                    after[at + 1],
                    pre.run_id,
                    request.control_id@,
                )
                &&& post == pre
            }
            &&& pre.live && after[at].fault is None && stopped is Err ==> {
                &&& after.len() == at + 1
                &&& result == stopped
                &&& post == pre
            }
            &&& pre.live && after[at].fault is None && stopped is Ok ==> {
                &&& offered_in_turn(before, after, waiting + 3, result)
                &&& after.len() > at + 1
                &&& records_answer(
                    after[at + 1],
                    pre.run_id,
                    request.control_id@,
                    true,
                    None,
                    None,
                    landed_in,
                )
                &&& forall|i: int|
                    at + 2 <= i < after.len() && i < at + 2 + waiting ==> records_rejection(
                        #[trigger] after[i],
                        pre.run_id,
                        pre.pending[i - at - 2].control_id,
                    )
                &&& after.len() == at + waiting + 3 ==> records_end(
                    after[at + waiting + 2],
                    pre.run_id,
                    payload,
                )
                &&& same_run(pre, post)
                &&& !post.live
                &&& post.terminal_emitted == (result is Ok)
                &&& without_first(
                    pre.pending,
                    post.pending,
                    at_most(after.len() - at - 2, waiting),
                )
            }
        },
{
}

/// Whether `reason` and `truncated` tell why the oldest steer did not land, given how the
/// process ended and what the resumer said. Of a harness's words as many are kept as the
/// limit allows, from the first on, and the flag is set if and only if some are not.
pub open spec fn refused_for(
    exit: ProcessExit,
    has_session: bool,
    refusal: Refusal,
    limit: nat,
    reason: Option<ReasonView>,
    truncated: Option<bool>,
) -> bool {
    if exit is Abnormal {
        reason == Some(ReasonView::NotLive) && truncated is None
    } else if !has_session {
        reason == Some(ReasonView::Unsupported) && truncated is None
    } else {
        match refusal {
            Refusal::Unsupported => reason == Some(ReasonView::Unsupported) && truncated is None,
            Refusal::Harness(words) => {
                &&& reason matches Some(ReasonView::Unknown(kept))
                &&& kept.len() == if words.len() < limit {
                    words.len()
                } else {
                    limit
                }
                &&& forall|k: int| 0 <= k < kept.len() ==> #[trigger] kept[k] == words[k]
                &&& truncated == if words.len() > limit {
                    Some(true)
                } else {
                    None
                }
            },
        }
    }
}

/// What the end of a process does, for every input and whatever the resumer said. A
/// closed run takes it in silence. Without waiting steers the run ends with the payload
/// that was given. Where the process ended normally and there is a session, the resumer
/// is asked, once, to go on with it with the words of the oldest steer. Where that
/// starts a process, the one event is the answer that this steer was applied, however
/// many still wait, and the run is live. Otherwise that steer is answered with the
/// reason, in as many of the harness's words as the limit allows; the others are
/// rejected, oldest first; and the run ends.
pub proof fn law_exit_in_full<F, E, H>(
    pre: ControlState,
    exit: ProcessExit,
    payload: F,
    asked_before: Seq<Asked<H>>,
    held: Option<H>,
    before: Seq<Offer<F, E>>,
    post: ControlState,
    asked_after: Seq<Asked<H>>,
    holds: Option<H>,
    after: Seq<Offer<F, E>>,
    result: Result<(), ControlError<E>>,
)
    requires
        exit_outcome(
            pre,
            exit,
            payload,
            asked_before,
            held,
            before,
            post,
            asked_after,
            holds,
            after,
            result,
        ),
    ensures
        pre.terminal_emitted ==> result is Ok && post == pre && after == before && holds == held,
        ({
            let asks = !pre.terminal_emitted && pre.pending.len() > 0 && exit is Normal
                && pre.session_id is Some;
            &&& grows(asked_before, asked_after)
            &&& asked_after.len() == asked_before.len() + if asks {
                1int
            } else {
                0int
            }
            &&& asks ==> {
                let asked = asked_after[asked_before.len() as int];
                &&& Some(asked.session_id) == pre.session_id
                &&& asked.text == pre.pending[0].text
            }
        }),
        !pre.terminal_emitted ==> {
            let at = before.len() as int;
            let waiting = pre.pending.len() as int;
            let asks = waiting > 0 && exit is Normal && pre.session_id is Some;
            let answer = asked_after[asked_before.len() as int].answer;
            &&& same_run(pre, post)
            &&& waiting == 0 ==> {
                &&& offered_in_turn(before, after, 1, result)
                &&& records_end(after[at], pre.run_id, payload)
                &&& !post.live
                &&& post.terminal_emitted == (result is Ok)
                &&& post.pending.len() == 0
                &&& holds == held
            }
            &&& asks && answer is Ok ==> {
                &&& offered_in_turn(before, after, 1, result)
                &&& records_answer(
                    after[at],
                    pre.run_id,
                    pre.pending[0].control_id,
                    true,
                    None,
                    None,
                    None,
                )
                &&& post.live
                &&& !post.terminal_emitted
                &&& without_first(pre.pending, post.pending, 1)
                &&& holds == answer->Ok_0
            }
            &&& waiting > 0 && !(asks && answer is Ok) ==> {
                &&& offered_in_turn(before, after, waiting + 1, result)
                &&& records_answer(
                    after[at],
                    pre.run_id,
                    pre.pending[0].control_id,
                    false,
                    after[at].draft.payload->Applied_0.reason,
                    after[at].draft.payload->Applied_0.truncated,
                    None,
                )
                &&& refused_for(
                    exit,
                    pre.session_id is Some,
                    answer->Err_0,
                    pre.max_excerpt_scalars,
                    after[at].draft.payload->Applied_0.reason,
                    after[at].draft.payload->Applied_0.truncated,
                )
                &&& forall|i: int|
                    at + 1 <= i < after.len() && i < at + waiting ==> records_rejection(
                        #[trigger] after[i],
                        pre.run_id,
                        pre.pending[i - at].control_id,
                    )
                &&& after.len() == at + waiting + 1 ==> records_end(
                    after[at + waiting],
                    pre.run_id,
                    payload,
                )
                &&& !post.live
                &&& post.terminal_emitted == (result is Ok)
                &&& without_first(
                    pre.pending,
                    post.pending,
                    at_most(after.len() - at, waiting),
                )
                &&& holds == held
            }
        },
{
}

/// Whether the offer numbered `i` of a call answers what the call carried out: the steer
/// with which the resumer started a process, or the interrupt whose process was ended.
pub open spec fn carried_out<F, E, H>(call: Call<F, E, H>, i: int) -> bool {
    match call.deed {
        Deed::Exit { exit, .. } => {
            &&& exit is Normal
            &&& i == call.before.len()
            &&& call.asked_after.len() > call.asked_before.len()
            &&& call.asked_after.last().answer is Ok
        },
        Deed::Interrupt { stopped, .. } => {
            &&& call.pre.live
            &&& stopped is Ok
            &&& i == call.before.len() + 1
        },
        _ => false,
    }
}

/// An answer says that a control was applied if and only if it was: the resumer started a
/// process with that steer, or the process was ended for that interrupt. Nothing else is
/// ever answered so, and every other answer gives a reason.
pub proof fn law_answers_tell_what_happened<F, E, H>(call: Call<F, E, H>, i: int)
    requires
        call.happened(),
        call.before.len() <= i < call.after.len(),
        call.after[i].draft.payload is Applied,
    ensures
        ({
            let answer = call.after[i].draft.payload->Applied_0;
            &&& answer.ok == carried_out(call, i)
            &&& answer.ok == (answer.reason is None)
            &&& answer.ok ==> match call.deed {
                Deed::Exit { .. } => {
                    &&& answer.control_id == call.pre.pending[0].control_id
                    &&& call.asked_after.last().text == call.pre.pending[0].text
                },
                Deed::Interrupt { request, .. } => answer.control_id == request.control_id@,
                _ => false,
            }
        }),
{
    let (pre, before, after) = (call.pre, call.before, call.after);
    match call.deed {
        Deed::Steer { request, validated } => {
            law_steer_in_full(pre, request, validated, before, call.post, after, call.result);
        },
        Deed::Interrupt { request, validated, stopped, landed_in, payload } => {
            law_interrupt_in_full(
                pre,
                request,
                validated,
                stopped,
                landed_in,
                payload,
                before,
                call.post,
                after,
                call.result,
            );
        },
        Deed::Exit { exit, payload } => {
            law_exit_in_full(
                pre,
                exit,
                payload,
                call.asked_before,
                call.held,
                before,
                call.post,
                call.asked_after,
                call.holds,
                after,
                call.result,
            );
        },
        Deed::Take { .. } => {},
    }
}

/// On the log of any history an answer says that a control was applied if and only if it
/// was.
pub proof fn law_answers_of_a_history_tell_what_happened<F, E, H>(
    start: ControlState,
    calls: Seq<Call<F, E, H>>,
    n: int,
    i: int,
)
    requires
        history(start, calls),
        0 <= n < calls.len(),
        calls[n].before.len() <= i < calls[n].after.len(),
        calls[n].after[i].draft.payload is Applied,
    ensures
        calls[n].after[i].draft.payload->Applied_0.ok == carried_out(calls[n], i),
{
    assert(follows(start, calls, n));
    law_answers_tell_what_happened(calls[n], i);
}

/// Of the waiting steers that an interrupt or an abnormal end rejects, the one numbered `i`
/// is answered by the event numbered `i` behind the ones before: with its own id, as not
/// applied because the run is not live, without a flag and without a tool call.
pub proof fn law_every_waiting_steer_is_rejected_in_turn<F, E, H>(call: Call<F, E, H>, i: int)
    requires
        call.happened(),
        !call.pre.terminal_emitted,
        !call.post.live,
        call.result is Ok,
        0 <= i < call.pre.pending.len(),
        (call.deed is Interrupt && call.pre.live) || (call.deed is Exit && call.deed->exit
            is Abnormal),
    ensures
        ({
            let first = call.before.len() + if call.deed is Interrupt {
                2int
            } else {
                0int
            };
            &&& first + i < call.after.len()
            &&& call.after[first + i].fault is None
            &&& call.after[first + i].run_id == call.pre.run_id
            &&& call.after[first + i].draft.payload matches PayloadView::Applied(answer)
            &&& answer.control_id == call.pre.pending[i].control_id
            &&& !answer.ok
            &&& answer.reason == Some(ReasonView::NotLive)
            &&& answer.truncated is None
            &&& answer.landed_in is None
        }),
{
    let (pre, before, after) = (call.pre, call.before, call.after);
    match call.deed {
        Deed::Interrupt { request, validated, stopped, landed_in, payload } => {
            law_interrupt_in_full(
                pre,
                request,
                validated,
                stopped,
                landed_in,
                payload,
                before,
                call.post,
                after,
                call.result,
            );
            assert(records_rejection(
                after[before.len() as int + 2 + i],
                pre.run_id,
                pre.pending[i].control_id,
            ));
        },
        Deed::Exit { exit, payload } => {
            law_exit_in_full(
                pre,
                exit,
                payload,
                call.asked_before,
                call.held,
                before,
                call.post,
                call.asked_after,
                call.holds,
                after,
                call.result,
            );
            if i > 0 {
                assert(records_rejection(
                    after[before.len() as int + i],
                    pre.run_id,
                    pre.pending[i].control_id,
                ));
            }
        },
        _ => {},
    }
}

/// Where the end of a process starts the next turn and the sink takes what it is offered,
/// the one event is the answer to the oldest steer: applied, without a reason, a flag or a
/// tool call, however many steers still wait.
pub proof fn law_landed_steer_is_answered_as_applied<F, E, H>(call: Call<F, E, H>)
    requires
        call.happened(),
        call.deed is Exit,
        call.asked_after.len() > call.asked_before.len(),
        call.asked_after.last().answer is Ok,
        call.result is Ok,
    ensures
        call.after.len() == call.before.len() + 1,
        ({
            let offer = call.after[call.before.len() as int];
            &&& offer.fault is None
            &&& offer.run_id == call.pre.run_id
            &&& offer.draft.payload matches PayloadView::Applied(answer)
            &&& answer.control_id == call.pre.pending[0].control_id
            &&& answer.ok
            &&& answer.reason is None
            &&& answer.truncated is None
            &&& answer.landed_in is None
        }),
        call.post.live,
        call.post.pending.len() == call.pre.pending.len() - 1,
{
    if let Deed::Exit { exit, payload } = call.deed {
        law_exit_in_full(
            call.pre,
            exit,
            payload,
            call.asked_before,
            call.held,
            call.before,
            call.post,
            call.asked_after,
            call.holds,
            call.after,
            call.result,
        );
    }
}

/// The event that records a request is the request, field for field, for a steer and for
/// an interrupt alike; it is the first that the call offers, and no other event records a
/// request.
pub proof fn law_requests_are_recorded_as_sent<F, E, H>(
    call: Call<F, E, H>,
    request: ControlRequestedPayload,
    i: int,
)
    requires
        call.happened(),
        call.before.len() <= i < call.after.len(),
        (call.deed is Steer && call.deed->Steer_request == request) || (call.deed is Interrupt
            && call.deed->Interrupt_request == request),
    ensures
        call.after[i].draft.payload is Requested <==> i == call.before.len(),
        i == call.before.len() ==> records_request(call.after[i], call.pre.run_id, request),
{
    match call.deed {
        Deed::Steer { request, validated } => {
            law_steer_in_full(
                call.pre,
                request,
                validated,
                call.before,
                call.post,
                call.after,
                call.result,
            );
        },
        Deed::Interrupt { request, validated, stopped, landed_in, payload } => {
            law_interrupt_in_full(
                call.pre,
                request,
                validated,
                stopped,
                landed_in,
                payload,
                call.before,
                call.post,
                call.after,
                call.result,
            );
        },
        _ => {},
    }
}

/// An interrupt may end the process if and only if the log is open, the process is
/// running, the request is valid and asks for an interrupt.
pub proof fn law_only_live_runs_are_ended(
    pre: ControlState,
    request: ControlRequestedPayload,
    validated: Result<(), String>,
)
    ensures
        may_end_process(pre, request, validated) == (!pre.terminal_emitted && pre.live && validated
            is Ok && request.kind is Interrupt),
{
}

/// The process is ended when the request was recorded as sent and nothing was offered
/// since, and then only.
pub proof fn law_process_ends_right_after_the_request<F, E>(
    pre: ControlState,
    request: ControlRequestedPayload,
    validated: Result<(), String>,
    before: Seq<Offer<F, E>>,
    offers: Seq<Offer<F, E>>,
)
    ensures
        just_recorded(pre, request, before, offers) == right_after_request(
            pre,
            request,
            before,
            offers,
        ),
        ends_process(pre, request, validated, before, offers) == {
            &&& !pre.terminal_emitted
            &&& pre.live
            &&& validated is Ok
            &&& request.kind is Interrupt
            &&& !(offers.len() == before.len() + 1 && offers[before.len() as int].fault is Some)
        },
        offers_terminal(pre, before, offers) == (offers.len() - before.len() == pre.pending.len()
            + 3),
{
    if right_after_request(pre, request, before, offers) {
        let offer = offers[before.len() as int];
        assert(offer.draft.payload->Requested_0 == request);
        assert(offers =~= before.push(offer));
    }
}

/// What ends a process is called with the grace of the run and with a sink that has just
/// recorded the request: it need not be callable in any other way, and it was called so
/// where the interrupt came to that.
pub proof fn law_process_is_ended_within_its_grace<F, S: Sink<F>, T, O>(
    pre: ControlState,
    request: ControlRequestedPayload,
    before: Seq<Offer<F, S::Fault>>,
    end: T,
    output: O,
) where T: FnOnce(u64, &S) -> O
    ensures
        can_end::<F, S, T, O>(pre, request, before, end) == (forall|sink: S|
            right_after_request(pre, request, before, sink.offers()) ==> #[trigger] call_requires(
                end,
                (pre.kill_grace_ms, &sink),
            )),
        ended::<F, S, T, O>(pre, request, before, end, output) == (exists|sink: S|
            right_after_request(pre, request, before, sink.offers()) && #[trigger] call_ensures(
                end,
                (pre.kill_grace_ms, &sink),
                output,
            )),
{
    assert forall|sink: S| #[trigger]
        just_recorded(pre, request, before, sink.offers()) == right_after_request(
            pre,
            request,
            before,
            sink.offers(),
        ) by {
        law_process_ends_right_after_the_request(pre, request, Ok(()), before, sink.offers());
    }
}

/// Whether `offers` are `before` and behind it the request, recorded as it was sent and
/// taken.
pub open spec fn right_after_request<F, E>(
    pre: ControlState,
    request: ControlRequestedPayload,
    before: Seq<Offer<F, E>>,
    offers: Seq<Offer<F, E>>,
) -> bool {
    &&& grows(before, offers)
    &&& offers.len() == before.len() + 1
    &&& records_request(offers[before.len() as int], pre.run_id, request)
    &&& offers[before.len() as int].fault is None
}

/// A caller that holds no process cannot end it; one that holds it ends it.
pub proof fn law_missing_process_is_named<K, E>(child: Option<K>)
    ensures
        child is Some ==> stopped_by::<K, E>(child) is Ok,
        child is None ==> stopped_by::<K, E>(child) == Err::<(), ControlError<E>>(
            ControlError::MissingLiveProcess,
        ),
{
}

/// Where an interrupted run ended, and with what, is what the watchdog said.
pub proof fn law_interrupt_reports_the_watchdog<F, E, W: Watchdog<F>>(
    pre: ControlState,
    watchdog: &W,
    open_call: Option<String>,
    payload: F,
    before: Seq<Offer<F, E>>,
    after: Seq<Offer<F, E>>,
)
    requires
        watchdog_sources(pre, watchdog, open_call, payload, before, after),
    ensures
        call_ensures(W::most_recent_open_tool_call, (watchdog,), open_call),
        after.len() - before.len() == pre.pending.len() + 3 ==> call_ensures(
            W::interrupted_payload,
            (watchdog,),
            payload,
        ),
{
}

/// The resumer is asked if and only if the log is open, a steer waits, the process ended
/// normally and there is a session.
pub proof fn law_when_a_resume_is_asked_for(pre: ControlState, exit: ProcessExit)
    ensures
        asks_to_resume(pre, exit) == (!pre.terminal_emitted && pre.pending.len() > 0
            && pre.session_id is Some && exit is Normal),
{
}

/// A refusal is told for what it is: unsupported as such, and a harness's words as they
/// were said.
pub proof fn law_refusal_is_told_for_what_it_is(refusal: Refusal)
    ensures
        match refusal {
            Refusal::Unsupported => refusal_reason(refusal) == ReasonView::Unsupported,
            Refusal::Harness(words) => refusal_reason(refusal) == ReasonView::Unknown(words),
        },
{
}

/// The words of a steer are its text, all of it, and none where it has none.
pub proof fn law_words_of_a_steer_are_its_text(request: ControlRequestedPayload)
    ensures
        match request.text {
            Some(text) => words_of(request) == text@,
            None => words_of(request).len() == 0,
        },
{
}

} // verus!
