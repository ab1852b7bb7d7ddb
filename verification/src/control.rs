//! Interrupt and queued-steer control for one harness run.

use std::collections::VecDeque;

use vstd::prelude::*;
use vstd::string::StringExecFns;

use crate::event::{
    applied, applied_draft, finished, finished_draft, requested, requested_draft, text_view,
    ControlAppliedReason, ControlKind, ControlRequestedPayload, DraftView, EventDraft, ReasonView,
};
use crate::resume::{Asked, Refusal, ResumeError, SessionResumer};
use crate::sink::{
    fault_of, lemma_offered_continues, lemma_offered_nothing, lemma_offered_one,
    lemma_offered_stops, offered, refused, Offer, Sink, Watchdog,
};

verus! {

/// Whether the just-ended harness process exited normally.
#[derive(Clone, Copy, Debug, PartialEq, Eq, Structural)]
pub enum ProcessExit {
    Normal,
    Abnormal,
}

/// A refused or malformed request, or a failure to record its events. `E` is
/// the fault of the sink that records them.
#[derive(Debug, PartialEq)]
pub enum ControlError<E> {
    /// The request is not valid for this runtime.
    InvalidRequest(String),
    WrongKind { expected: &'static str },
    MissingLiveProcess,
    /// The run has already emitted its terminal event, so its log is closed.
    NotLive,
    Sink(E),
}

impl<E> ControlError<E> {
    /// The failure in words, except that of a sink, which has its own.
    pub fn message(&self) -> (words: Option<String>)
        ensures
            text_view(words) == match *self {
                ControlError::InvalidRequest(reason) => Some(
                    "invalid control request: "@ + reason@,
                ),
                ControlError::WrongKind { expected } => Some(
                    "expected a "@ + expected@ + " control request"@,
                ),
                ControlError::MissingLiveProcess => Some(
                    "a live process handle is required to interrupt a live run"@,
                ),
                ControlError::NotLive => Some("run has already emitted its terminal event"@),
                ControlError::Sink(_) => None,
            },
    {
        match self {
            ControlError::InvalidRequest(reason) => Some(
                "invalid control request: ".to_owned().concat(reason.as_str()),
            ),
            ControlError::WrongKind { expected } => Some(
                "expected a ".to_owned().concat(expected).concat(" control request"),
            ),
            ControlError::MissingLiveProcess => Some(
                "a live process handle is required to interrupt a live run".to_owned(),
            ),
            ControlError::NotLive => Some("run has already emitted its terminal event".to_owned()),
            ControlError::Sink(_) => None,
        }
    }
}

/// The part of a run's caps that control applies.
#[derive(Clone, Copy, Debug, PartialEq, Eq)]
pub struct RunCaps {
    /// How long a process group may take to end before it is killed.
    pub kill_grace_ms: u64,
}

impl Default for RunCaps {
    fn default() -> (caps: RunCaps)
        ensures
            caps.kill_grace_ms == 10_000,
    {
        RunCaps { kill_grace_ms: 10_000 }
    }
}

/// A steer that waits for the end of the process.
#[derive(Debug)]
struct QueuedSteer {
    control_id: String,
    text: String,
}

/// What a queued steer says.
pub struct Steer {
    pub control_id: Seq<char>,
    pub text: Seq<char>,
}

/// What a [`RunControl`] knows of its run.
pub struct ControlState {
    pub run_id: Seq<char>,
    pub session_id: Option<Seq<char>>,
    pub kill_grace_ms: u64,
    pub max_excerpt_scalars: nat,
    /// Whether the process of the run is running.
    pub live: bool,
    /// Whether the log of the run has been closed.
    pub terminal_emitted: bool,
    /// The steers that wait, oldest first.
    pub pending: Seq<Steer>,
}

/// Control state for one run, retained across every queued resume.
///
/// Keeping one instance across resumes preserves the run id; the caller also
/// keeps the same watchdog, so all ceilings continue accumulating across turns.
pub struct RunControl<R: SessionResumer> {
    run_id: String,
    session_id: Option<String>,
    kill_grace_ms: u64,
    max_excerpt_scalars: usize,
    resumer: R,
    live: bool,
    terminal_emitted: bool,
    pending_steers: VecDeque<QueuedSteer>,
    resumed_child: Option<R::Handle>,
}

/// The answer to a request that came when no process was running.
pub open spec fn not_live<F>(control_id: Seq<char>, limit: nat) -> DraftView<F> {
    applied(control_id, false, Some(ReasonView::NotLive), None, limit)
}

/// The answers to steers that will never land, oldest first.
pub open spec fn rejections<F>(pending: Seq<Steer>, limit: nat) -> Seq<DraftView<F>> {
    Seq::new(pending.len(), |i: int| not_live(pending[i].control_id, limit))
}

/// How many of the offers between `before` and `after` came behind the first
/// `skipped`, of `count` that could.
pub open spec fn reached<F, E>(
    before: Seq<Offer<F, E>>,
    after: Seq<Offer<F, E>>,
    skipped: int,
    count: nat,
) -> int {
    let n = after.len() - before.len() - skipped;
    if n < 0 {
        0
    } else if n > count {
        count as int
    } else {
        n
    }
}

/// What comes of a plan that was offered: the fault with which the sink refused
/// one of its drafts, or success.
pub open spec fn sink_answer<F, E>(before: Seq<Offer<F, E>>, after: Seq<Offer<F, E>>) -> Result<
    (),
    ControlError<E>,
> {
    if refused(before, after) {
        Err(ControlError::Sink(after.last().fault->0))
    } else {
        Ok(())
    }
}

/// The words that a steer asks for, none where it has none.
pub open spec fn words_of(request: ControlRequestedPayload) -> Seq<char> {
    match request.text {
        Some(text) => text@,
        None => Seq::empty(),
    }
}

/// What [`RunControl::steer`] does: how `before` and `pre`, the offers and the
/// state before it, give `after` and `post`, and what it returns.
pub open spec fn steer_outcome<F, E>(
    pre: ControlState,
    request: ControlRequestedPayload,
    validated: Result<(), String>,
    before: Seq<Offer<F, E>>,
    post: ControlState,
    after: Seq<Offer<F, E>>,
    result: Result<(), ControlError<E>>,
) -> bool {
    if pre.terminal_emitted {
        &&& result == Err::<(), ControlError<E>>(ControlError::NotLive)
        &&& post == pre
        &&& after == before
    } else if validated is Err {
        &&& result == Err::<(), ControlError<E>>(ControlError::InvalidRequest(validated->Err_0))
        &&& post == pre
        &&& after == before
    } else if request.kind !is Steer {
        &&& result matches Err(ControlError::WrongKind { expected })
        &&& expected@ == "steer"@
        &&& post == pre
        &&& after == before
    } else {
        let limit = pre.max_excerpt_scalars;
        let plan = if pre.live {
            seq![requested(request)]
        } else {
            seq![requested(request), not_live(request.control_id@, limit)]
        };
        let steer = Steer { control_id: request.control_id@, text: words_of(request) };
        &&& offered(pre.run_id, plan, before, after)
        &&& result == sink_answer(before, after)
        &&& post == if pre.live && result is Ok {
            ControlState { pending: pre.pending.push(steer), ..pre }
        } else {
            pre
        }
    }
}

/// What [`RunControl::interrupt_with`] does, given what came of ending the
/// process, the tool call that was open and the payload that was reported then:
/// how `before` and `pre`, the offers and the state before it, give `after` and
/// `post`, and what it returns.
pub open spec fn interrupt_outcome<F, E>(
    pre: ControlState,
    request: ControlRequestedPayload,
    validated: Result<(), String>,
    stopped: Result<(), ControlError<E>>,
    landed_in: Option<Seq<char>>,
    payload: F,
    before: Seq<Offer<F, E>>,
    post: ControlState,
    after: Seq<Offer<F, E>>,
    result: Result<(), ControlError<E>>,
) -> bool {
    let limit = pre.max_excerpt_scalars;
    if pre.terminal_emitted {
        &&& result == Err::<(), ControlError<E>>(ControlError::NotLive)
        &&& post == pre
        &&& after == before
    } else if validated is Err {
        &&& result == Err::<(), ControlError<E>>(ControlError::InvalidRequest(validated->Err_0))
        &&& post == pre
        &&& after == before
    } else if request.kind !is Interrupt {
        &&& result matches Err(ControlError::WrongKind { expected })
        &&& expected@ == "interrupt"@
        &&& post == pre
        &&& after == before
    } else if !pre.live {
        let plan = seq![requested(request), not_live(request.control_id@, limit)];
        &&& offered(pre.run_id, plan, before, after)
        &&& result == sink_answer(before, after)
        &&& post == pre
    } else if !ends_process(pre, request, validated, before, after) {
        &&& offered(pre.run_id, seq![requested(request)], before, after)
        &&& result == sink_answer(before, after)
        &&& post == pre
    } else if stopped is Err {
        &&& offered(pre.run_id, seq![requested(request)], before, after)
        &&& !refused(before, after)
        &&& result == stopped
        &&& post == pre
    } else {
        let plan = seq![
            requested(request),
            applied(request.control_id@, true, None, landed_in, limit),
        ] + rejections(pre.pending, limit) + seq![finished(payload)];
        &&& offered(pre.run_id, plan, before, after)
        &&& result == sink_answer(before, after)
        &&& post == (ControlState {
            live: false,
            terminal_emitted: result is Ok,
            pending: pre.pending.skip(reached(before, after, 2, pre.pending.len())),
            ..pre
        })
    }
}

/// Whether an interrupt is one that ends the process once it is recorded: the log
/// of the run is open, its process is running, and the request is a valid one of
/// the right kind. In every other case the process is left alone.
pub open spec fn may_end_process(
    pre: ControlState,
    request: ControlRequestedPayload,
    validated: Result<(), String>,
) -> bool {
    &&& !pre.terminal_emitted
    &&& validated is Ok
    &&& request.kind is Interrupt
    &&& pre.live
}

/// Whether an interrupt comes to the point where it ends the process: it may, and
/// the sink took the request.
pub open spec fn ends_process<F, E>(
    pre: ControlState,
    request: ControlRequestedPayload,
    validated: Result<(), String>,
    before: Seq<Offer<F, E>>,
    after: Seq<Offer<F, E>>,
) -> bool {
    &&& may_end_process(pre, request, validated)
    &&& !(after.len() == before.len() + 1 && refused(before, after))
}

/// Whether `offers` are `before` and then the request, which the sink took: the
/// one moment at which an interrupt ends the process.
pub open spec fn just_recorded<F, E>(
    pre: ControlState,
    request: ControlRequestedPayload,
    before: Seq<Offer<F, E>>,
    offers: Seq<Offer<F, E>>,
) -> bool {
    offers == before.push(
        Offer { run_id: pre.run_id, draft: requested(request), fault: None },
    )
}

/// Whether `end` can be called with the grace of the run by an interrupt that has
/// just recorded its request. Nothing is said of any other call.
pub open spec fn can_end<F, S: Sink<F>, T, O>(
    pre: ControlState,
    request: ControlRequestedPayload,
    before: Seq<Offer<F, S::Fault>>,
    end: T,
) -> bool where T: FnOnce(u64, &S) -> O {
    forall|sink: S|
        just_recorded(pre, request, before, sink.offers()) ==> #[trigger] call_requires(
            end,
            (pre.kill_grace_ms, &sink),
        )
}

/// Whether `end` was called with the grace of the run, when the request was the
/// last event that the sink had taken, and gave `output`.
pub open spec fn ended<F, S: Sink<F>, T, O>(
    pre: ControlState,
    request: ControlRequestedPayload,
    before: Seq<Offer<F, S::Fault>>,
    end: T,
    output: O,
) -> bool where T: FnOnce(u64, &S) -> O {
    exists|sink: S|
        just_recorded(pre, request, before, sink.offers()) && #[trigger] call_ensures(
            end,
            (pre.kill_grace_ms, &sink),
            output,
        )
}

/// Whether an interrupt came to the point where it offered the terminal event.
pub open spec fn offers_terminal<F, E>(
    pre: ControlState,
    before: Seq<Offer<F, E>>,
    after: Seq<Offer<F, E>>,
) -> bool {
    after.len() == before.len() + pre.pending.len() + 3
}

/// What comes of ending the process that a caller holds, if it holds one.
pub open spec fn stopped_by<K, E>(child: Option<K>) -> Result<(), ControlError<E>> {
    if child is Some {
        Ok(())
    } else {
        Err(ControlError::MissingLiveProcess)
    }
}

/// Where the facts that an ended process leaves to record come from: `open_call`
/// and `payload` are what the watchdog gave, the latter as far as the interrupt
/// came to need it.
pub open spec fn watchdog_sources<F, E, W: Watchdog<F>>(
    pre: ControlState,
    watchdog: &W,
    open_call: Option<String>,
    payload: F,
    before: Seq<Offer<F, E>>,
    after: Seq<Offer<F, E>>,
) -> bool {
    &&& call_ensures(W::most_recent_open_tool_call, (watchdog,), open_call)
    &&& offers_terminal(pre, before, after) ==> call_ensures(
        W::interrupted_payload,
        (watchdog,),
        payload,
    )
}

/// What the first part of an interrupt does, up to the point where the process is
/// to be ended: how `before`, the offers before it, give `after`, and what it
/// returns. It returns the grace if and only if the process is now to be ended.
spec fn opening_outcome<F, E>(
    pre: ControlState,
    request: ControlRequestedPayload,
    validated: Result<(), String>,
    before: Seq<Offer<F, E>>,
    after: Seq<Offer<F, E>>,
    result: Result<Option<u64>, ControlError<E>>,
) -> bool {
    if pre.terminal_emitted {
        &&& result == Err::<Option<u64>, ControlError<E>>(ControlError::NotLive)
        &&& after == before
    } else if validated is Err {
        &&& result == Err::<Option<u64>, ControlError<E>>(
            ControlError::InvalidRequest(validated->Err_0),
        )
        &&& after == before
    } else if request.kind !is Interrupt {
        &&& result matches Err(ControlError::WrongKind { expected })
        &&& expected@ == "interrupt"@
        &&& after == before
    } else {
        let plan = if pre.live {
            seq![requested(request)]
        } else {
            seq![requested(request), not_live(request.control_id@, pre.max_excerpt_scalars)]
        };
        &&& offered(pre.run_id, plan, before, after)
        &&& result == match sink_answer(before, after) {
            Err(error) => Err::<Option<u64>, ControlError<E>>(error),
            Ok(_) => Ok::<Option<u64>, ControlError<E>>(
                if pre.live {
                    Some(pre.kill_grace_ms)
                } else {
                    None
                },
            ),
        }
        &&& pre.live && result is Ok ==> just_recorded(pre, request, before, after)
    }
}

/// What the last part of an interrupt does, once the process has been ended: how
/// `before` and `pre`, the offers and the state before it, give `after` and `post`,
/// and what it returns.
spec fn closing_outcome<F, E>(
    pre: ControlState,
    control_id: Seq<char>,
    landed_in: Option<Seq<char>>,
    payload: F,
    before: Seq<Offer<F, E>>,
    post: ControlState,
    after: Seq<Offer<F, E>>,
    result: Result<(), ControlError<E>>,
) -> bool {
    let limit = pre.max_excerpt_scalars;
    let plan = seq![applied(control_id, true, None, landed_in, limit)] + rejections(
        pre.pending,
        limit,
    ) + seq![finished(payload)];
    &&& offered(pre.run_id, plan, before, after)
    &&& result == sink_answer(before, after)
    &&& post == (ControlState {
        live: false,
        terminal_emitted: result is Ok,
        pending: pre.pending.skip(reached(before, after, 1, pre.pending.len())),
        ..pre
    })
}

/// An interrupt whose two parts were carried out, with the process ended in
/// between, was carried out.
proof fn lemma_interrupt_parts<F, E>(
    pre: ControlState,
    request: ControlRequestedPayload,
    landed_in: Option<Seq<char>>,
    payload: F,
    before: Seq<Offer<F, E>>,
    between: Seq<Offer<F, E>>,
    post: ControlState,
    after: Seq<Offer<F, E>>,
    result: Result<(), ControlError<E>>,
)
    requires
        may_end_process(pre, request, Ok(())),
        offered(pre.run_id, seq![requested::<F>(request)], before, between),
        just_recorded(pre, request, before, between),
        closing_outcome(
            pre,
            request.control_id@,
            landed_in,
            payload,
            between,
            post,
            after,
            result,
        ),
    ensures
        ends_process(pre, request, Ok(()), before, after),
        interrupt_outcome(
            pre,
            request,
            Ok(()),
            Ok(()),
            landed_in,
            payload,
            before,
            post,
            after,
            result,
        ),
{
    let limit = pre.max_excerpt_scalars;
    let first = seq![requested::<F>(request)];
    let answer = applied::<F>(request.control_id@, true, None, landed_in, limit);
    let rest = seq![answer] + rejections(pre.pending, limit) + seq![finished(payload)];
    assert(!refused(before, between));
    lemma_offered_continues(pre.run_id, first, rest, before, between, after);
    assert(first + rest =~= seq![requested(request), answer] + rejections(pre.pending, limit)
        + seq![finished(payload)]);
}

/// The reason recorded for a steer that a resumer refused.
pub open spec fn refusal_reason(refusal: Refusal) -> ReasonView {
    match refusal {
        Refusal::Unsupported => ReasonView::Unsupported,
        Refusal::Harness(words) => ReasonView::Unknown(words),
    }
}

/// Whether the end of a process asks the resumer for the next turn: the process
/// ended normally, a steer waits, and there is a session to resume.
pub open spec fn asks_to_resume(pre: ControlState, exit: ProcessExit) -> bool {
    &&& !pre.terminal_emitted
    &&& pre.pending.len() > 0
    &&& exit is Normal
    &&& pre.session_id is Some
}

/// What [`RunControl::process_exited`] does: how `before`, `asked_before`, `held`
/// and `pre`, the offers, the resumes, the handle and the state before it, give
/// `after`, `asked_after`, `holds` and `post`, and what it returns.
pub open spec fn exit_outcome<F, E, H>(
    pre: ControlState,
    exit: ProcessExit,
    payload: F,
    asked_before: Seq<Asked<H>>,
    held: Option<H>,
    before: Seq<Offer<F, E>>,
    post: ControlState,
    asked_after: Seq<Asked<H>>,
    holds: Option<H>,
    after: Seq<Offer<F, E>>,
    result: Result<(), ControlError<E>>,
) -> bool {
    let limit = pre.max_excerpt_scalars;
    let oldest = pre.pending[0];
    let later = pre.pending.drop_first();
    let answer = if asks_to_resume(pre, exit) {
        asked_after.last().answer
    } else {
        Err(Refusal::Unsupported)
    };
    // The resumer is asked once or not at all.
    &&& if asks_to_resume(pre, exit) {
        asked_after == asked_before.push(
            Asked { session_id: pre.session_id->0, text: oldest.text, answer },
        )
    } else {
        asked_after == asked_before
    }
    &&& if pre.terminal_emitted {
        &&& result == Ok::<(), ControlError<E>>(())
        &&& post == pre
        &&& after == before
        &&& holds == held
    } else if pre.pending.len() == 0 {
        &&& offered(pre.run_id, seq![finished(payload)], before, after)
        &&& result == sink_answer(before, after)
        &&& post == (ControlState { live: false, terminal_emitted: result is Ok, ..pre })
        &&& holds == held
    } else if answer is Ok {
        &&& offered(
            pre.run_id,
            seq![applied(oldest.control_id, true, None, None, limit)],
            before,
            after,
        )
        &&& result == sink_answer(before, after)
        &&& post == (ControlState { live: true, pending: later, ..pre })
        &&& holds == answer->Ok_0
    } else {
        let reason = if exit is Normal {
            refusal_reason(answer->Err_0)
        } else {
            ReasonView::NotLive
        };
        let plan = seq![applied(oldest.control_id, false, Some(reason), None, limit)] + rejections(
            later,
            limit,
        ) + seq![finished(payload)];
        &&& offered(pre.run_id, plan, before, after)
        &&& result == sink_answer(before, after)
        &&& post == (ControlState {
            live: false,
            terminal_emitted: result is Ok,
            pending: later.skip(reached(before, after, 1, later.len())),
            ..pre
        })
        &&& holds == held
    }
}

/// Offer one draft to the sink.
fn record<F, S: Sink<F>>(run_id: &str, draft: EventDraft<F>, sink: &mut S) -> (result: Result<
    (),
    ControlError<S::Fault>,
>)
    ensures
        offered(run_id@, seq![draft@], old(sink).offers(), final(sink).offers()),
        final(sink).offers().len() == old(sink).offers().len() + 1,
        result == sink_answer(old(sink).offers(), final(sink).offers()),
{
    let ghost before = sink.offers();
    let ghost view = draft@;
    let appended = sink.append(run_id, draft);
    proof {
        lemma_offered_one(run_id@, view, before, fault_of(appended));
    }
    match appended {
        Ok(()) => Ok(()),
        Err(fault) => Err(ControlError::Sink(fault)),
    }
}

impl<R: SessionResumer> RunControl<R> {
    pub closed spec fn view(&self) -> ControlState {
        ControlState {
            run_id: self.run_id@,
            session_id: text_view(self.session_id),
            kill_grace_ms: self.kill_grace_ms,
            max_excerpt_scalars: self.max_excerpt_scalars as nat,
            live: self.live,
            terminal_emitted: self.terminal_emitted,
            pending: Seq::new(
                self.pending_steers@.len(),
                |i: int|
                    Steer {
                        control_id: self.pending_steers@[i].control_id@,
                        text: self.pending_steers@[i].text@,
                    },
            ),
        }
    }

    /// What starts the next turn.
    pub closed spec fn resumer(&self) -> R {
        self.resumer
    }

    /// The process started by the last successful resume, until it is taken.
    pub closed spec fn resumed(&self) -> Option<R::Handle> {
        self.resumed_child
    }

    /// Control of a run whose process is running. A harness's own words are
    /// recorded up to `max_excerpt_scalars` scalars.
    #[must_use]
    pub fn new(
        run_id: &str,
        session_id: Option<String>,
        caps: RunCaps,
        max_excerpt_scalars: usize,
        resumer: R,
    ) -> (control: Self)
        ensures
            control@ == (ControlState {
                run_id: run_id@,
                session_id: text_view(session_id),
                kill_grace_ms: caps.kill_grace_ms,
                max_excerpt_scalars: max_excerpt_scalars as nat,
                live: true,
                terminal_emitted: false,
                pending: Seq::empty(),
            }),
            control.resumer() == resumer,
            control.resumed() is None,
    {
        let control = RunControl {
            run_id: run_id.to_owned(),
            session_id,
            kill_grace_ms: caps.kill_grace_ms,
            max_excerpt_scalars,
            resumer,
            live: true,
            terminal_emitted: false,
            pending_steers: VecDeque::new(),
            resumed_child: None,
        };
        assert(control@.pending =~= Seq::empty());
        control
    }

    /// Whether the process of the run is running.
    #[must_use]
    pub fn is_live(&self) -> (live: bool)
        ensures
            live == self@.live,
    {
        self.live
    }

    /// How many steers wait for the end of the process.
    #[must_use]
    pub fn pending_steers(&self) -> (count: usize)
        ensures
            count == self@.pending.len(),
    {
        self.pending_steers.len()
    }

    /// Take ownership of the process started by the last successful resume.
    pub fn take_resumed_child(&mut self) -> (child: Option<R::Handle>)
        ensures
            child == old(self).resumed(),
            final(self).resumed() is None,
            final(self)@ == old(self)@,
            final(self).resumer() == old(self).resumer(),
    {
        let child = self.resumed_child.take();
        assert(self@.pending =~= old(self)@.pending);
        child
    }

    /// Queue a steer for the next normal process boundary. `validated` is what
    /// the vocabulary of events says of the request.
    pub fn steer<F, S: Sink<F>>(
        &mut self,
        request: ControlRequestedPayload,
        validated: Result<(), String>,
        sink: &mut S,
    ) -> (result: Result<(), ControlError<S::Fault>>)
        ensures
            steer_outcome(
                old(self)@,
                request,
                validated,
                old(sink).offers(),
                final(self)@,
                final(sink).offers(),
                result,
            ),
            final(self).resumer() == old(self).resumer(),
            final(self).resumed() == old(self).resumed(),
    {
        // Process liveness is not log liveness: an answer that the run is not
        // live belongs in an open log, and nothing belongs in a closed one.
        if self.terminal_emitted {
            return Err(ControlError::NotLive);
        }
        if let Err(words) = validated {
            return Err(ControlError::InvalidRequest(words));
        }
        match &request.kind {
            ControlKind::Steer => {},
            _ => {
                return Err(ControlError::WrongKind { expected: "steer" });
            },
        }
        let control_id = request.control_id.clone();
        let text = match &request.text {
            Some(text) => text.clone(),
            None => String::new(),
        };
        let ghost before = sink.offers();
        let ghost limit = self.max_excerpt_scalars as nat;
        let ghost opening = seq![requested::<F>(request)];
        let ghost answer = seq![not_live::<F>(control_id@, limit)];
        assert(opening + answer =~= seq![requested(request), not_live(control_id@, limit)]);
        let recorded = record(self.run_id.as_str(), requested_draft(request), sink);
        if recorded.is_err() {
            proof {
                lemma_offered_stops(self.run_id@, opening, answer, before, sink.offers());
            }
            return recorded;
        }
        if !self.live {
            let ghost between = sink.offers();
            let answered = record(
                self.run_id.as_str(),
                applied_draft(
                    control_id.as_str(),
                    false,
                    Some(ControlAppliedReason::NotLive),
                    None,
                    self.max_excerpt_scalars,
                ),
                sink,
            );
            proof {
                lemma_offered_continues(
                    self.run_id@,
                    opening,
                    answer,
                    before,
                    between,
                    sink.offers(),
                );
            }
            return answered;
        }
        self.pending_steers.push_back(QueuedSteer { control_id, text });
        proof {
            let steer = Steer { control_id: control_id@, text: text@ };
            assert(self@.pending =~= old(self)@.pending.push(steer));
        }
        Ok(())
    }

    /// Answer every waiting steer that it will not land, oldest first.
    fn reject_pending_steers<F, S: Sink<F>>(&mut self, sink: &mut S) -> (result: Result<
        (),
        ControlError<S::Fault>,
    >)
        ensures
            offered(
                old(self)@.run_id,
                rejections(old(self)@.pending, old(self)@.max_excerpt_scalars),
                old(sink).offers(),
                final(sink).offers(),
            ),
            result == sink_answer(old(sink).offers(), final(sink).offers()),
            final(self)@ == (ControlState {
                pending: old(self)@.pending.skip(
                    final(sink).offers().len() - old(sink).offers().len(),
                ),
                ..old(self)@
            }),
            final(self).resumer() == old(self).resumer(),
            final(self).resumed() == old(self).resumed(),
    {
        let ghost before = sink.offers();
        let ghost pre = self@;
        let ghost plan = rejections::<F>(pre.pending, pre.max_excerpt_scalars);
        let ghost mut done: int = 0;
        proof {
            lemma_offered_nothing::<F, S::Fault>(pre.run_id, before);
            assert(plan.take(0) =~= Seq::empty());
            assert(pre.pending.skip(0) =~= pre.pending);
        }
        while self.pending_steers.len() > 0
            invariant
                pre == old(self)@,
                plan == rejections::<F>(pre.pending, pre.max_excerpt_scalars),
                0 <= done <= pre.pending.len(),
                self@ == (ControlState { pending: pre.pending.skip(done), ..pre }),
                self.resumer() == old(self).resumer(),
                self.resumed() == old(self).resumed(),
                before == old(sink).offers(),
                offered(pre.run_id, plan.take(done), before, sink.offers()),
                !refused(before, sink.offers()),
                sink.offers().len() == before.len() + done,
            decreases self.pending_steers@.len(),
        {
            let ghost waiting = self@.pending;
            assert(waiting.len() == self.pending_steers@.len());
            assert(waiting == pre.pending.skip(done));
            assert(done < pre.pending.len());
            if let Some(queued) = self.pending_steers.pop_front() {
                assert(waiting[0].control_id == queued.control_id@);
                assert(self@.pending =~= waiting.skip(1));
                let ghost between = sink.offers();
                let ghost draft = not_live::<F>(queued.control_id@, pre.max_excerpt_scalars);
                assert(self@.pending =~= pre.pending.skip(done + 1));
                assert(pre.pending.skip(done)[0] == pre.pending[done]);
                assert(plan[done] == draft);
                let answered = record(
                    self.run_id.as_str(),
                    applied_draft(
                        queued.control_id.as_str(),
                        false,
                        Some(ControlAppliedReason::NotLive),
                        None,
                        self.max_excerpt_scalars,
                    ),
                    sink,
                );
                proof {
                    lemma_offered_continues(
                        pre.run_id,
                        plan.take(done),
                        seq![draft],
                        before,
                        between,
                        sink.offers(),
                    );
                    assert(plan.take(done) + seq![draft] =~= plan.take(done + 1));
                }
                if answered.is_err() {
                    proof {
                        lemma_offered_stops(
                            pre.run_id,
                            plan.take(done + 1),
                            plan.skip(done + 1),
                            before,
                            sink.offers(),
                        );
                        assert(plan.take(done + 1) + plan.skip(done + 1) =~= plan);
                    }
                    return answered;
                }
                proof {
                    done = done + 1;
                }
            }
        }
        proof {
            assert(pre.pending.skip(done).len() == 0);
            assert(plan.take(done) =~= plan);
        }
        Ok(())
    }

    /// Handle a process exit and either land one queued steer or finish the run.
    pub fn process_exited<F, S: Sink<F>>(
        &mut self,
        exit: ProcessExit,
        payload: F,
        sink: &mut S,
    ) -> (result: Result<(), ControlError<S::Fault>>)
        ensures
            exit_outcome(
                old(self)@,
                exit,
                payload,
                old(self).resumer().asked(),
                old(self).resumed(),
                old(sink).offers(),
                final(self)@,
                final(self).resumer().asked(),
                final(self).resumed(),
                final(sink).offers(),
                result,
            ),
            !asks_to_resume(old(self)@, exit) ==> final(self).resumer() == old(self).resumer(),
    {
        if self.terminal_emitted {
            return Ok(());
        }
        let ghost pre = self@;
        let ghost before = sink.offers();
        let ghost run = self.run_id@;
        let ghost limit = self.max_excerpt_scalars as nat;
        let ghost ending = seq![finished(payload)];

        self.live = false;
        let steer = match self.pending_steers.pop_front() {
            Some(steer) => steer,
            None => {
                assert(self@.pending =~= pre.pending);
                let closed = record(self.run_id.as_str(), finished_draft(payload), sink);
                if closed.is_ok() {
                    self.terminal_emitted = true;
                }
                assert(self@.pending =~= pre.pending);
                return closed;
            },
        };
        let ghost later = pre.pending.drop_first();
        assert(pre.pending[0] == Steer { control_id: steer.control_id@, text: steer.text@ });
        assert(self@.pending =~= later);

        let reason = match exit {
            ProcessExit::Normal => {
                let resumed = match &self.session_id {
                    None => Err(ResumeError::Unsupported),
                    Some(session_id) => self.resumer.resume(session_id.as_str(), steer.text.as_str()),
                };
                match resumed {
                    Ok(started) => {
                        self.resumed_child = started.into_handle();
                        self.live = true;
                        assert(self@.pending =~= later);
                        return record(
                            self.run_id.as_str(),
                            applied_draft(
                                steer.control_id.as_str(),
                                true,
                                None,
                                None,
                                self.max_excerpt_scalars,
                            ),
                            sink,
                        );
                    },
                    Err(ResumeError::Unsupported) => ControlAppliedReason::Unsupported,
                    Err(ResumeError::Harness(reason)) => ControlAppliedReason::Unknown(reason),
                }
            },
            ProcessExit::Abnormal => ControlAppliedReason::NotLive,
        };
        assert(self@.pending =~= later);
        let ghost opening = seq![
            applied::<F>(steer.control_id@, false, Some(reason@), None, limit),
        ];
        let ghost rejected = rejections::<F>(later, limit);
        let answered = record(
            self.run_id.as_str(),
            applied_draft(
                steer.control_id.as_str(),
                false,
                Some(reason),
                None,
                self.max_excerpt_scalars,
            ),
            sink,
        );
        if answered.is_err() {
            proof {
                lemma_offered_stops(run, opening, rejected + ending, before, sink.offers());
                assert(opening + (rejected + ending) =~= opening + rejected + ending);
                assert(later.skip(0) =~= later);
            }
            return answered;
        }
        let ghost answered_to = sink.offers();
        let rejecting = self.reject_pending_steers(sink);
        let ghost rejected_to = sink.offers();
        proof {
            assert(opening.len() == 1);
            assert(answered_to.len() == before.len() + 1);
            lemma_offered_continues(run, opening, rejected, before, answered_to, rejected_to);
        }
        if rejecting.is_err() {
            proof {
                lemma_offered_stops(run, opening + rejected, ending, before, rejected_to);
            }
            return rejecting;
        }
        let closed = record(self.run_id.as_str(), finished_draft(payload), sink);
        proof {
            lemma_offered_continues(
                run,
                opening + rejected,
                ending,
                before,
                rejected_to,
                sink.offers(),
            );
        }
        if closed.is_ok() {
            self.terminal_emitted = true;
        }
        assert(self@.pending =~= later.skip(later.len() as int));
        closed
    }

    /// Record the request of an interrupt, or refuse it. Gives the grace if the
    /// process is now to be ended.
    fn open_interrupt<F, S: Sink<F>>(
        &self,
        request: ControlRequestedPayload,
        validated: Result<(), String>,
        sink: &mut S,
    ) -> (result: Result<Option<u64>, ControlError<S::Fault>>)
        ensures
            opening_outcome(
                self@,
                request,
                validated,
                old(sink).offers(),
                final(sink).offers(),
                result,
            ),
    {
        // A run that is not live may still have an open log, which can carry the
        // answer that it is not live. Once the terminal event is out, every
        // consumer has stopped at it, so the refusal appends nothing.
        if self.terminal_emitted {
            return Err(ControlError::NotLive);
        }
        if let Err(words) = validated {
            return Err(ControlError::InvalidRequest(words));
        }
        match &request.kind {
            ControlKind::Interrupt => {},
            _ => {
                return Err(ControlError::WrongKind { expected: "interrupt" });
            },
        }
        let control_id = request.control_id.clone();
        let ghost before = sink.offers();
        let ghost run = self.run_id@;
        let ghost opening = seq![requested::<F>(request)];
        let ghost refusal = seq![not_live::<F>(control_id@, self.max_excerpt_scalars as nat)];
        assert(opening + refusal =~= seq![
            requested(request),
            not_live(control_id@, self.max_excerpt_scalars as nat),
        ]);
        let recorded = record(self.run_id.as_str(), requested_draft(request), sink);
        let ghost recorded_to = sink.offers();
        if let Err(error) = recorded {
            proof {
                lemma_offered_stops(run, opening, refusal, before, recorded_to);
            }
            return Err(error);
        }
        if self.live {
            proof {
                let taken = Offer { run_id: run, draft: opening[0], fault: None };
                assert(recorded_to.last() == taken);
                assert(recorded_to =~= recorded_to.take(before.len() as int).push(taken));
            }
            return Ok(Some(self.kill_grace_ms));
        }
        let answered = record(
            self.run_id.as_str(),
            applied_draft(
                control_id.as_str(),
                false,
                Some(ControlAppliedReason::NotLive),
                None,
                self.max_excerpt_scalars,
            ),
            sink,
        );
        proof {
            lemma_offered_continues(run, opening, refusal, before, recorded_to, sink.offers());
        }
        match answered {
            Ok(()) => Ok(None),
            Err(error) => Err(error),
        }
    }

    /// Record the answer to an interrupt whose process has been ended, the
    /// rejection of the steers that wait, and the end of the run.
    fn close_interrupt<F, S: Sink<F>, W: Watchdog<F>>(
        &mut self,
        control_id: &str,
        watchdog: &W,
        sink: &mut S,
    ) -> (result: Result<(), ControlError<S::Fault>>)
        requires
            !old(self)@.terminal_emitted,
        ensures
            exists|open_call: Option<String>, payload: F| #[trigger]
                closing_outcome(
                    old(self)@,
                    control_id@,
                    text_view(open_call),
                    payload,
                    old(sink).offers(),
                    final(self)@,
                    final(sink).offers(),
                    result,
                ) && call_ensures(W::most_recent_open_tool_call, (watchdog,), open_call) && (
                final(sink).offers().len() == old(sink).offers().len() + old(self)@.pending.len()
                    + 2 ==> call_ensures(W::interrupted_payload, (watchdog,), payload)),
            final(self).resumer() == old(self).resumer(),
            final(self).resumed() == old(self).resumed(),
    {
        let ghost pre = self@;
        let ghost before = sink.offers();
        let ghost run = self.run_id@;
        let ghost limit = self.max_excerpt_scalars as nat;
        let ghost no_payload: F = arbitrary();

        self.live = false;
        let open_call = watchdog.most_recent_open_tool_call();
        let ghost landed_in = text_view(open_call);
        let ghost answer = seq![applied::<F>(control_id@, true, None, landed_in, limit)];
        let ghost rejected = rejections::<F>(pre.pending, limit);
        assert(self@.pending =~= pre.pending);
        assert(pre.pending.skip(0) =~= pre.pending);
        let answered = record(
            self.run_id.as_str(),
            applied_draft(control_id, true, None, open_call, self.max_excerpt_scalars),
            sink,
        );
        let ghost answered_to = sink.offers();
        assert(answered_to.len() == before.len() + 1);
        if answered.is_err() {
            proof {
                let tail = rejected + seq![finished(no_payload)];
                lemma_offered_stops(run, answer, tail, before, answered_to);
                assert(answer + tail =~= answer + rejected + seq![finished(no_payload)]);
                assert(closing_outcome(
                    pre,
                    control_id@,
                    landed_in,
                    no_payload,
                    before,
                    self@,
                    sink.offers(),
                    answered,
                ));
            }
            return answered;
        }
        let rejecting = self.reject_pending_steers(sink);
        let ghost rejected_to = sink.offers();
        proof {
            lemma_offered_continues(run, answer, rejected, before, answered_to, rejected_to);
        }
        if rejecting.is_err() {
            proof {
                let ending = seq![finished(no_payload)];
                lemma_offered_stops(run, answer + rejected, ending, before, rejected_to);
                assert(closing_outcome(
                    pre,
                    control_id@,
                    landed_in,
                    no_payload,
                    before,
                    self@,
                    sink.offers(),
                    rejecting,
                ));
            }
            return rejecting;
        }
        let payload = watchdog.interrupted_payload();
        let closed = record(self.run_id.as_str(), finished_draft(payload), sink);
        proof {
            lemma_offered_continues(
                run,
                answer + rejected,
                seq![finished(payload)],
                before,
                rejected_to,
                sink.offers(),
            );
        }
        if closed.is_ok() {
            self.terminal_emitted = true;
        }
        proof {
            assert(self@.pending =~= pre.pending.skip(pre.pending.len() as int));
            assert(closing_outcome(
                pre,
                control_id@,
                landed_in,
                payload,
                before,
                self@,
                sink.offers(),
                closed,
            ));
        }
        closed
    }

    /// Request an interrupt, ending the process when the run is live.
    ///
    /// `terminate` ends the process within the grace it is given, in
    /// milliseconds. It is called on a live run only, and not before the sink has
    /// taken the request: it is handed the sink as it then stands. `validated` is
    /// what the vocabulary of events says of the request.
    pub fn interrupt_with<F, S: Sink<F>, W: Watchdog<F>, T>(
        &mut self,
        request: ControlRequestedPayload,
        validated: Result<(), String>,
        watchdog: &W,
        sink: &mut S,
        terminate: T,
    ) -> (result: Result<(), ControlError<S::Fault>>) where
        T: FnOnce(u64, &S) -> Result<(), ControlError<S::Fault>>,

        requires
            may_end_process(old(self)@, request, validated) ==> can_end::<
                F,
                S,
                T,
                Result<(), ControlError<S::Fault>>,
            >(old(self)@, request, old(sink).offers(), terminate),
        ensures
            exists|
                stopped: Result<(), ControlError<S::Fault>>,
                open_call: Option<String>,
                payload: F,
            | #[trigger]
                interrupt_outcome(
                    old(self)@,
                    request,
                    validated,
                    stopped,
                    text_view(open_call),
                    payload,
                    old(sink).offers(),
                    final(self)@,
                    final(sink).offers(),
                    result,
                ) && (ends_process(
                    old(self)@,
                    request,
                    validated,
                    old(sink).offers(),
                    final(sink).offers(),
                ) ==> {
                    &&& ended::<F, S, T, Result<(), ControlError<S::Fault>>>(
                        old(self)@,
                        request,
                        old(sink).offers(),
                        terminate,
                        stopped,
                    )
                    &&& stopped is Ok ==> watchdog_sources(
                        old(self)@,
                        watchdog,
                        open_call,
                        payload,
                        old(sink).offers(),
                        final(sink).offers(),
                    )
                }),
            final(self).resumer() == old(self).resumer(),
            final(self).resumed() == old(self).resumed(),
    {
        let ghost pre = self@;
        let ghost before = sink.offers();
        let ghost mut stopped: Result<(), ControlError<S::Fault>> = Ok(());
        let ghost mut open_call: Option<String> = None;
        let ghost mut payload: F = arbitrary();
        let control_id = request.control_id.clone();
        let result = match self.open_interrupt(request, validated, sink) {
            Err(error) => Err(error),
            Ok(None) => Ok(()),
            Ok(Some(grace_ms)) => {
                let ghost between = sink.offers();
                let ended = terminate(grace_ms, &*sink);
                proof {
                    stopped = ended;
                }
                match ended {
                    Err(error) => Err(error),
                    Ok(()) => {
                        let closed = self.close_interrupt(control_id.as_str(), watchdog, sink);
                        proof {
                            let (found, reported) = choose|found: Option<String>, reported: F|
                                #[trigger]
                                closing_outcome(
                                    pre,
                                    control_id@,
                                    text_view(found),
                                    reported,
                                    between,
                                    self@,
                                    sink.offers(),
                                    closed,
                                ) && watchdog_sources(
                                    pre,
                                    watchdog,
                                    found,
                                    reported,
                                    before,
                                    sink.offers(),
                                );
                            open_call = found;
                            payload = reported;
                            lemma_interrupt_parts(
                                pre,
                                request,
                                text_view(open_call),
                                payload,
                                before,
                                between,
                                self@,
                                sink.offers(),
                                closed,
                            );
                        }
                        closed
                    },
                }
            },
        };
        assert(interrupt_outcome(
            pre,
            request,
            validated,
            stopped,
            text_view(open_call),
            payload,
            before,
            self@,
            sink.offers(),
            result,
        ));
        result
    }

    /// Request an interrupt, terminating the process when the run is live.
    ///
    /// `child` ends the process that the caller holds, if it holds one, within
    /// the grace it is given, in milliseconds. It is called on a live run only, and
    /// not before the sink has taken the request: it is handed the sink as it then
    /// stands.
    pub fn interrupt<F, S: Sink<F>, W: Watchdog<F>, K: FnOnce(u64, &S)>(
        &mut self,
        request: ControlRequestedPayload,
        validated: Result<(), String>,
        child: Option<K>,
        watchdog: &W,
        sink: &mut S,
    ) -> (result: Result<(), ControlError<S::Fault>>)
        requires
            may_end_process(old(self)@, request, validated) && child is Some ==> can_end::<
                F,
                S,
                K,
                (),
            >(old(self)@, request, old(sink).offers(), child->0),
        ensures
            exists|open_call: Option<String>, payload: F| #[trigger]
                interrupt_outcome(
                    old(self)@,
                    request,
                    validated,
                    stopped_by(child),
                    text_view(open_call),
                    payload,
                    old(sink).offers(),
                    final(self)@,
                    final(sink).offers(),
                    result,
                ) && (ends_process(
                    old(self)@,
                    request,
                    validated,
                    old(sink).offers(),
                    final(sink).offers(),
                ) && child is Some ==> {
                    &&& ended::<F, S, K, ()>(
                        old(self)@,
                        request,
                        old(sink).offers(),
                        child->0,
                        (),
                    )
                    &&& watchdog_sources(
                        old(self)@,
                        watchdog,
                        open_call,
                        payload,
                        old(sink).offers(),
                        final(sink).offers(),
                    )
                }),
            final(self).resumer() == old(self).resumer(),
            final(self).resumed() == old(self).resumed(),
    {
        let terminate = |grace_ms: u64, taken: &S| -> (stopped: Result<
            (),
            ControlError<S::Fault>,
        >)
            requires
                child matches Some(end) ==> call_requires(end, (grace_ms, taken)),
            ensures
                stopped == stopped_by::<K, S::Fault>(child),
                child is Some ==> call_ensures(child->0, (grace_ms, taken), ()),
            {
                match child {
                    Some(end) => {
                        end(grace_ms, taken);
                        Ok(())
                    },
                    None => Err(ControlError::MissingLiveProcess),
                }
            };
        let ghost pre = self@;
        let ghost before = sink.offers();
        let result = self.interrupt_with(request, validated, watchdog, sink, terminate);
        proof {
            let (stopped, open_call, payload) = choose|
                stopped: Result<(), ControlError<S::Fault>>,
                open_call: Option<String>,
                payload: F,
            | #[trigger]
                interrupt_outcome(
                    pre,
                    request,
                    validated,
                    stopped,
                    text_view(open_call),
                    payload,
                    before,
                    self@,
                    sink.offers(),
                    result,
                ) && (ends_process(pre, request, validated, before, sink.offers()) ==> {
                    &&& ended::<F, S, _, Result<(), ControlError<S::Fault>>>(
                        pre,
                        request,
                        before,
                        terminate,
                        stopped,
                    )
                    &&& stopped is Ok ==> watchdog_sources(
                        pre,
                        watchdog,
                        open_call,
                        payload,
                        before,
                        sink.offers(),
                    )
                });
            assert(interrupt_outcome(
                pre,
                request,
                validated,
                stopped_by(child),
                text_view(open_call),
                payload,
                before,
                self@,
                sink.offers(),
                result,
            ));
        }
        result
    }
}

} // verus!
