//! What holds of a controlled run, whatever its callers do and whatever else goes
//! to the sink between their calls.

use vstd::multiset::Multiset;
use vstd::prelude::*;
use vstd::seq_lib::{lemma_multiset_commutative, to_multiset_build, to_multiset_len};

use crate::control::{
    asks_to_resume, ends_process, exit_outcome, interrupt_outcome, not_live, refusal_reason,
    rejections, steer_outcome, words_of, ControlError, ControlState, ProcessExit, Steer,
};
use crate::event::{
    applied, finished, recorded_reason, recorded_truncation, requested, ControlRequestedPayload,
    DraftView, PayloadView, ReasonView,
};
use crate::resume::{Asked, Refusal};
use crate::sink::{offered, refused, Offer};

verus! {

/// What was called, with all that decided its outcome.
pub enum Deed<F, E, H> {
    /// A call of [`steer`](crate::RunControl::steer).
    Steer { request: ControlRequestedPayload, validated: Result<(), String> },
    /// A call of [`interrupt_with`](crate::RunControl::interrupt_with).
    Interrupt {
        request: ControlRequestedPayload,
        validated: Result<(), String>,
        stopped: Result<(), ControlError<E>>,
        landed_in: Option<Seq<char>>,
        payload: F,
    },
    /// A call of [`process_exited`](crate::RunControl::process_exited).
    Exit { exit: ProcessExit, payload: F },
    /// A call of [`take_resumed_child`](crate::RunControl::take_resumed_child), and
    /// what it gave.
    Take { child: Option<H> },
}

/// One call, with the state of the run, the offers to the sink, the resumes and the
/// handle of a resumed process before and after it, and what it returned.
pub struct Call<F, E, H> {
    pub deed: Deed<F, E, H>,
    pub pre: ControlState,
    pub before: Seq<Offer<F, E>>,
    pub asked_before: Seq<Asked<H>>,
    pub held: Option<H>,
    pub post: ControlState,
    pub after: Seq<Offer<F, E>>,
    pub asked_after: Seq<Asked<H>>,
    pub holds: Option<H>,
    pub result: Result<(), ControlError<E>>,
}

/// The events that a sink took of the given offers, in order.
pub open spec fn taken<F, E>(offers: Seq<Offer<F, E>>) -> Seq<DraftView<F>>
    decreases offers.len(),
{
    if offers.len() == 0 {
        Seq::empty()
    } else if offers.last().fault is None {
        taken(offers.drop_last()).push(offers.last().draft)
    } else {
        taken(offers.drop_last())
    }
}

/// The events that a sink took between `before` and `after`.
pub open spec fn recorded<F, E>(before: Seq<Offer<F, E>>, after: Seq<Offer<F, E>>) -> Seq<
    DraftView<F>,
> {
    taken(after.skip(before.len() as int))
}

impl<F, E, H> Call<F, E, H> {
    /// Whether the call can have gone like this.
    pub open spec fn happened(self) -> bool {
        match self.deed {
            Deed::Steer { request, validated } => {
                &&& steer_outcome(
                    self.pre,
                    request,
                    validated,
                    self.before,
                    self.post,
                    self.after,
                    self.result,
                )
                &&& self.resumes_nothing()
            },
            Deed::Interrupt { request, validated, stopped, landed_in, payload } => {
                &&& interrupt_outcome(
                    self.pre,
                    request,
                    validated,
                    stopped,
                    landed_in,
                    payload,
                    self.before,
                    self.post,
                    self.after,
                    self.result,
                )
                &&& self.resumes_nothing()
            },
            Deed::Exit { exit, payload } => exit_outcome(
                self.pre,
                exit,
                payload,
                self.asked_before,
                self.held,
                self.before,
                self.post,
                self.asked_after,
                self.holds,
                self.after,
                self.result,
            ),
            Deed::Take { child } => {
                &&& child == self.held
                &&& self.holds is None
                &&& self.post == self.pre
                &&& self.after == self.before
                &&& self.asked_after == self.asked_before
                &&& self.result is Ok
            },
        }
    }

    /// Whether the call asks for no resume and keeps the handle of a resumed process.
    pub open spec fn resumes_nothing(self) -> bool {
        self.asked_after == self.asked_before && self.holds == self.held
    }

    /// The answer of the resumer, where the call asked it and it started a process.
    pub open spec fn started(self) -> Option<Option<H>> {
        match self.deed {
            Deed::Exit { exit, .. } if asks_to_resume(self.pre, exit)
                && self.asked_after.last().answer is Ok => Some(
                self.asked_after.last().answer->Ok_0,
            ),
            _ => None,
        }
    }

    /// The events that the call put on the log.
    pub open spec fn recorded(self) -> Seq<DraftView<F>> {
        recorded(self.before, self.after)
    }

    /// Whether the sink took all that the call offered.
    pub open spec fn smooth(self) -> bool {
        !refused(self.before, self.after)
    }

    /// The id of the steer that the call was asked for and did not refuse.
    pub open spec fn accepted_steer(self) -> Multiset<Seq<char>> {
        match self.deed {
            Deed::Steer { request, .. } if self.result is Ok => Multiset::empty().insert(
                request.control_id@,
            ),
            _ => Multiset::empty(),
        }
    }

    /// The id of the interrupt that the call was asked for and carried out, or
    /// answered as not live.
    pub open spec fn answered_interrupt(self) -> Multiset<Seq<char>> {
        match self.deed {
            Deed::Interrupt { request, .. } if self.result is Ok => Multiset::empty().insert(
                request.control_id@,
            ),
            _ => Multiset::empty(),
        }
    }

    /// The id of the interrupt that the call recorded and could not carry out,
    /// because the process was not ended.
    pub open spec fn failed_interrupt(self) -> Multiset<Seq<char>> {
        match self.deed {
            Deed::Interrupt { request, validated, stopped, .. } if stopped is Err && ends_process(
                self.pre,
                request,
                validated,
                self.before,
                self.after,
            ) => Multiset::empty().insert(request.control_id@),
            _ => Multiset::empty(),
        }
    }
}

/// How many terminal events a log holds.
pub open spec fn terminals<F>(log: Seq<DraftView<F>>) -> nat
    decreases log.len(),
{
    if log.len() == 0 {
        0
    } else {
        terminals(log.drop_last()) + if log.last().payload is Finished {
            1nat
        } else {
            0nat
        }
    }
}

/// The ids of the requests on a log.
pub open spec fn requested_ids<F>(log: Seq<DraftView<F>>) -> Multiset<Seq<char>>
    decreases log.len(),
{
    if log.len() == 0 {
        Multiset::empty()
    } else {
        let earlier = requested_ids(log.drop_last());
        match log.last().payload {
            PayloadView::Requested(request) => earlier.insert(request.control_id@),
            _ => earlier,
        }
    }
}

/// The ids of the requests that are answered on a log.
pub open spec fn answered_ids<F>(log: Seq<DraftView<F>>) -> Multiset<Seq<char>>
    decreases log.len(),
{
    if log.len() == 0 {
        Multiset::empty()
    } else {
        let earlier = answered_ids(log.drop_last());
        match log.last().payload {
            PayloadView::Applied(answer) => earlier.insert(answer.control_id),
            _ => earlier,
        }
    }
}

/// The ids of the steers that wait.
pub open spec fn waiting_ids(pending: Seq<Steer>) -> Multiset<Seq<char>> {
    pending.map_values(|steer: Steer| steer.control_id).to_multiset()
}

/// Whether the log of a run fits its state: a closed run neither runs nor keeps
/// steers waiting, and its log ends in its only terminal event; the log of an
/// open run holds none.
pub open spec fn fits<F>(state: ControlState, log: Seq<DraftView<F>>) -> bool {
    if state.terminal_emitted {
        &&& !state.live
        &&& state.pending.len() == 0
        &&& log.len() > 0
        &&& log.last().payload is Finished
        &&& terminals(log) == 1
    } else {
        terminals(log) == 0
    }
}

/// Events that were all taken.
proof fn lemma_all_taken<F, E>(offers: Seq<Offer<F, E>>)
    requires
        forall|i: int| 0 <= i < offers.len() ==> (#[trigger] offers[i]).fault is None,
    ensures
        taken(offers).len() == offers.len(),
        forall|i: int| 0 <= i < offers.len() ==> #[trigger] taken(offers)[i] == offers[i].draft,
    decreases offers.len(),
{
    if offers.len() > 0 {
        lemma_all_taken(offers.drop_last());
    }
}

/// Offering a plan records what the sink took of it: all of it, or all before the
/// event that was refused.
proof fn lemma_recorded<F, E>(
    run_id: Seq<char>,
    plan: Seq<DraftView<F>>,
    before: Seq<Offer<F, E>>,
    after: Seq<Offer<F, E>>,
)
    requires
        offered(run_id, plan, before, after),
    ensures
        !refused(before, after) ==> recorded(before, after) == plan,
        refused(before, after) ==> {
            &&& recorded(before, after).len() < plan.len()
            &&& recorded(before, after) == plan.take(recorded(before, after).len() as int)
        },
{
    let added = after.skip(before.len() as int);
    if refused(before, after) {
        let kept = added.drop_last();
        assert forall|i: int| 0 <= i < kept.len() implies (#[trigger] kept[i]).fault is None by {
            assert(kept[i] == after[before.len() + i]);
        }
        lemma_all_taken(kept);
        assert(added.last() == after.last());
        assert forall|i: int| 0 <= i < kept.len() implies #[trigger] taken(kept)[i] == plan[i] by {
            assert(kept[i] == after[before.len() + i]);
        }
        assert(taken(kept) =~= plan.take(kept.len() as int));
    } else {
        assert forall|i: int| 0 <= i < added.len() implies (#[trigger] added[i]).fault is None by {
            assert(added[i] == after[before.len() + i]);
        }
        lemma_all_taken(added);
        assert forall|i: int| 0 <= i < added.len() implies #[trigger] taken(added)[i] == plan[i] by {
            assert(added[i] == after[before.len() + i]);
        }
        assert(taken(added) =~= plan);
    }
}

/// The end of a log adds its terminal events to those before it.
proof fn lemma_terminals_add<F>(log: Seq<DraftView<F>>, more: Seq<DraftView<F>>)
    ensures
        terminals(log + more) == terminals(log) + terminals(more),
    decreases more.len(),
{
    if more.len() == 0 {
        assert(log + more =~= log);
    } else {
        lemma_terminals_add(log, more.drop_last());
        assert((log + more).drop_last() =~= log + more.drop_last());
    }
}

/// The end of a log adds its requests to those before it.
proof fn lemma_requested_add<F>(log: Seq<DraftView<F>>, more: Seq<DraftView<F>>)
    ensures
        requested_ids(log + more) =~= requested_ids(log).add(requested_ids(more)),
    decreases more.len(),
{
    if more.len() == 0 {
        assert(log + more =~= log);
    } else {
        lemma_requested_add(log, more.drop_last());
        assert((log + more).drop_last() =~= log + more.drop_last());
    }
}

/// The end of a log adds its answers to those before it.
proof fn lemma_answered_add<F>(log: Seq<DraftView<F>>, more: Seq<DraftView<F>>)
    ensures
        answered_ids(log + more) =~= answered_ids(log).add(answered_ids(more)),
    decreases more.len(),
{
    if more.len() == 0 {
        assert(log + more =~= log);
    } else {
        lemma_answered_add(log, more.drop_last());
        assert((log + more).drop_last() =~= log + more.drop_last());
    }
}

/// Rejecting the steers that wait answers exactly these.
proof fn lemma_rejections<F>(pending: Seq<Steer>, limit: nat)
    ensures
        terminals(rejections::<F>(pending, limit)) == 0,
        requested_ids(rejections::<F>(pending, limit)) =~= Multiset::empty(),
        answered_ids(rejections::<F>(pending, limit)) =~= waiting_ids(pending),
    decreases pending.len(),
{
    let ids = pending.map_values(|steer: Steer| steer.control_id);
    if pending.len() == 0 {
        assert(ids =~= Seq::empty());
        ids.to_multiset_ensures();
        assert(ids.to_multiset() =~= Multiset::empty());
    } else {
        lemma_rejections::<F>(pending.drop_last(), limit);
        let earlier = pending.drop_last().map_values(|steer: Steer| steer.control_id);
        assert(ids =~= earlier.push(pending.last().control_id));
        to_multiset_build(earlier, pending.last().control_id);
        assert(rejections::<F>(pending, limit).drop_last() =~= rejections::<F>(
            pending.drop_last(),
            limit,
        ));
        assert(rejections::<F>(pending, limit).last() == not_live::<F>(
            pending.last().control_id,
            limit,
        ));
    }
}

/// A log of one event.
proof fn lemma_single<F>(draft: DraftView<F>)
    ensures
        terminals(seq![draft]) == if draft.payload is Finished {
            1nat
        } else {
            0nat
        },
        requested_ids(seq![draft]) =~= match draft.payload {
            PayloadView::Requested(request) => Multiset::empty().insert(request.control_id@),
            _ => Multiset::empty(),
        },
        answered_ids(seq![draft]) =~= match draft.payload {
            PayloadView::Applied(answer) => Multiset::empty().insert(answer.control_id),
            _ => Multiset::empty(),
        },
{
    reveal_with_fuel(terminals, 2);
    reveal_with_fuel(requested_ids, 2);
    reveal_with_fuel(answered_ids, 2);
    let log = seq![draft];
    assert(log.drop_last() =~= Seq::empty());
    assert(log.last() == draft);
}

/// A log of two events is that of the one and that of the other.
proof fn lemma_pair<F>(first: DraftView<F>, second: DraftView<F>)
    ensures
        terminals(seq![first, second]) == terminals(seq![first]) + terminals(seq![second]),
        requested_ids(seq![first, second]) =~= requested_ids(seq![first]).add(
            requested_ids(seq![second]),
        ),
        answered_ids(seq![first, second]) =~= answered_ids(seq![first]).add(
            answered_ids(seq![second]),
        ),
{
    assert(seq![first, second] =~= seq![first] + seq![second]);
    lemma_terminals_add(seq![first], seq![second]);
    lemma_requested_add(seq![first], seq![second]);
    lemma_answered_add(seq![first], seq![second]);
}

/// A plan without a terminal event records none.
proof fn lemma_open_plan<F, E>(
    run_id: Seq<char>,
    plan: Seq<DraftView<F>>,
    before: Seq<Offer<F, E>>,
    after: Seq<Offer<F, E>>,
)
    requires
        offered(run_id, plan, before, after),
        terminals(plan) == 0,
    ensures
        terminals(recorded(before, after)) == 0,
        !refused(before, after) ==> recorded(before, after) == plan,
{
    lemma_recorded(run_id, plan, before, after);
    let n = recorded(before, after).len() as int;
    assert(plan =~= plan.take(n) + plan.skip(n));
    lemma_terminals_add(plan.take(n), plan.skip(n));
}

/// A plan that ends in its only terminal event records it, as the last event, where
/// the sink took all of the plan, and no terminal event elsewhere.
proof fn lemma_closing_plan<F, E>(
    run_id: Seq<char>,
    head: Seq<DraftView<F>>,
    ending: DraftView<F>,
    before: Seq<Offer<F, E>>,
    after: Seq<Offer<F, E>>,
)
    requires
        offered(run_id, head + seq![ending], before, after),
        terminals(head) == 0,
        ending.payload is Finished,
    ensures
        refused(before, after) ==> terminals(recorded(before, after)) == 0,
        !refused(before, after) ==> {
            &&& recorded(before, after) == head + seq![ending]
            &&& terminals(recorded(before, after)) == 1
            &&& recorded(before, after).last() == ending
        },
{
    let plan = head + seq![ending];
    lemma_recorded(run_id, plan, before, after);
    if refused(before, after) {
        let n = recorded(before, after).len() as int;
        assert(plan.take(n) =~= head.take(n));
        assert(head =~= head.take(n) + head.skip(n));
        lemma_terminals_add(head.take(n), head.skip(n));
    } else {
        lemma_single(ending);
        lemma_terminals_add(head, seq![ending]);
    }
}

/// No steer waits, so no id does.
proof fn lemma_nothing_waits(pending: Seq<Steer>)
    requires
        pending.len() == 0,
    ensures
        waiting_ids(pending) =~= Multiset::empty(),
{
    let ids = pending.map_values(|steer: Steer| steer.control_id);
    ids.to_multiset_ensures();
    assert(ids.to_multiset() =~= Multiset::empty());
}

/// Whether a call left alone what it must: which run and which session it is
/// about, how long its process may take to end, how much of a harness's words is
/// recorded, and every earlier offer; what it added is for its own run.
pub open spec fn keeps_identity<F, E>(
    pre: ControlState,
    before: Seq<Offer<F, E>>,
    post: ControlState,
    after: Seq<Offer<F, E>>,
) -> bool {
    &&& post.run_id == pre.run_id
    &&& post.session_id == pre.session_id
    &&& post.kill_grace_ms == pre.kill_grace_ms
    &&& post.max_excerpt_scalars == pre.max_excerpt_scalars
    &&& before.len() <= after.len()
    &&& after.take(before.len() as int) == before
    &&& forall|i: int| before.len() <= i < after.len() ==> (#[trigger] after[i]).run_id == pre.run_id
}

/// What each call does to a run that has an open log.
pub open spec fn call_is_sound<F, E, H>(call: Call<F, E, H>) -> bool {
    // A call records a terminal event if and only if it closes the run, and then
    // records it once, as its last event.
    &&& terminals(call.recorded()) == if call.post.terminal_emitted {
        1nat
    } else {
        0nat
    }
    &&& call.post.terminal_emitted ==> {
        &&& call.recorded().len() > 0
        &&& call.recorded().last().payload is Finished
        &&& !call.post.live
        &&& call.post.pending.len() == 0
    }
    &&& call.smooth() ==> {
        // What is settled or starts to wait was asked for or waited before.
        &&& answered_ids(call.recorded()).add(waiting_ids(call.post.pending)) =~= waiting_ids(
            call.pre.pending,
        ).add(call.accepted_steer()).add(call.answered_interrupt())
        &&& requested_ids(call.recorded()) =~= call.accepted_steer().add(
            call.answered_interrupt(),
        ).add(call.failed_interrupt())
        &&& waiting_ids(call.post.pending).subset_of(
            waiting_ids(call.pre.pending).add(call.accepted_steer()),
        )
        &&& call.pre.live ==> call.post.live == !call.post.terminal_emitted
    }
}

/// What holds of a single steer.
proof fn lemma_steer<F, E, H>(call: Call<F, E, H>)
    requires
        call.happened(),
        call.deed is Steer,
    ensures
        keeps_identity(call.pre, call.before, call.post, call.after),
        !call.pre.terminal_emitted ==> call_is_sound(call),
{
    let (pre, before, after) = (call.pre, call.before, call.after);
    assert(before.take(before.len() as int) =~= before);
    assert(before.skip(before.len() as int) =~= Seq::empty());
    let request = call.deed->Steer_request;
    if !pre.terminal_emitted && call.deed->Steer_validated is Ok && request.kind is Steer {
        let id = request.control_id@;
        let first = requested::<F>(request);
        let second = not_live::<F>(id, pre.max_excerpt_scalars);
        let plan = if pre.live {
            seq![first]
        } else {
            seq![first, second]
        };
        lemma_single(first);
        lemma_single(second);
        lemma_pair(first, second);
        lemma_open_plan(pre.run_id, plan, before, after);
        if pre.live && call.smooth() {
            let ids = pre.pending.map_values(|steer: Steer| steer.control_id);
            to_multiset_build(ids, id);
            assert(call.post.pending.map_values(|steer: Steer| steer.control_id) =~= ids.push(id));
        }
    }
}

/// What holds of a single interrupt.
proof fn lemma_interrupt<F, E, H>(call: Call<F, E, H>)
    requires
        call.happened(),
        call.deed is Interrupt,
    ensures
        keeps_identity(call.pre, call.before, call.post, call.after),
        !call.pre.terminal_emitted ==> call_is_sound(call),
{
    let (pre, post, before, after) = (call.pre, call.post, call.before, call.after);
    assert(before.take(before.len() as int) =~= before);
    assert(before.skip(before.len() as int) =~= Seq::empty());
    let request = call.deed->Interrupt_request;
    let validated = call.deed->Interrupt_validated;
    if !pre.terminal_emitted && validated is Ok && request.kind is Interrupt {
        let id = request.control_id@;
        let limit = pre.max_excerpt_scalars;
        let first = requested::<F>(request);
        lemma_single(first);
        if !pre.live {
            let second = not_live::<F>(id, limit);
            lemma_single(second);
            lemma_pair(first, second);
            lemma_open_plan(pre.run_id, seq![first, second], before, after);
        } else if !ends_process(pre, request, validated, before, after)
            || call.deed->Interrupt_stopped is Err {
            lemma_open_plan(pre.run_id, seq![first], before, after);
        } else {
            let second = applied::<F>(id, true, None, call.deed->Interrupt_landed_in, limit);
            let ending = finished(call.deed->Interrupt_payload);
            let rejected = rejections::<F>(pre.pending, limit);
            let head = seq![first, second] + rejected;
            lemma_single(second);
            lemma_single(ending);
            lemma_pair(first, second);
            lemma_rejections::<F>(pre.pending, limit);
            lemma_terminals_add(seq![first, second], rejected);
            lemma_closing_plan(pre.run_id, head, ending, before, after);
            if call.smooth() {
                lemma_requested_add(seq![first, second], rejected);
                lemma_answered_add(seq![first, second], rejected);
                lemma_requested_add(head, seq![ending]);
                lemma_answered_add(head, seq![ending]);
                lemma_nothing_waits(post.pending);
            }
        }
    }
}

/// What holds of a single end of a process.
proof fn lemma_exit<F, E, H>(call: Call<F, E, H>)
    requires
        call.happened(),
        call.deed is Exit,
    ensures
        keeps_identity(call.pre, call.before, call.post, call.after),
        !call.pre.terminal_emitted ==> call_is_sound(call),
{
    let (pre, post, before, after) = (call.pre, call.post, call.before, call.after);
    assert(before.take(before.len() as int) =~= before);
    assert(before.skip(before.len() as int) =~= Seq::empty());
    let exit = call.deed->Exit_exit;
    if !pre.terminal_emitted {
        let limit = pre.max_excerpt_scalars;
        let ending = finished(call.deed->Exit_payload);
        lemma_single(ending);
        if pre.pending.len() == 0 {
            let none = Seq::<DraftView<F>>::empty();
            assert(none + seq![ending] =~= seq![ending]);
            lemma_closing_plan(pre.run_id, none, ending, before, after);
            lemma_nothing_waits(pre.pending);
        } else {
            let oldest = pre.pending[0];
            let later = pre.pending.drop_first();
            lemma_oldest_and_later(pre.pending);
            let answer = if asks_to_resume(pre, exit) {
                call.asked_after.last().answer
            } else {
                Err(Refusal::Unsupported)
            };
            if answer is Ok {
                let first = applied::<F>(oldest.control_id, true, None, None, limit);
                lemma_single(first);
                lemma_open_plan(pre.run_id, seq![first], before, after);
            } else {
                let reason = if exit is Normal {
                    refusal_reason(answer->Err_0)
                } else {
                    ReasonView::NotLive
                };
                let first = applied::<F>(oldest.control_id, false, Some(reason), None, limit);
                let rejected = rejections::<F>(later, limit);
                let head = seq![first] + rejected;
                lemma_single(first);
                lemma_rejections::<F>(later, limit);
                lemma_terminals_add(seq![first], rejected);
                lemma_closing_plan(pre.run_id, head, ending, before, after);
                if call.smooth() {
                    lemma_requested_add(seq![first], rejected);
                    lemma_answered_add(seq![first], rejected);
                    lemma_requested_add(head, seq![ending]);
                    lemma_answered_add(head, seq![ending]);
                    lemma_nothing_waits(post.pending);
                }
            }
        }
    }
}

/// The ids that wait are that of the oldest steer and those of the later ones.
proof fn lemma_oldest_and_later(pending: Seq<Steer>)
    requires
        pending.len() > 0,
    ensures
        waiting_ids(pending) =~= waiting_ids(pending.drop_first()).insert(pending[0].control_id),
{
    let oldest = pending[0].control_id;
    let none = Seq::<Seq<char>>::empty();
    let ids = pending.drop_first().map_values(|steer: Steer| steer.control_id);
    assert(pending.map_values(|steer: Steer| steer.control_id) =~= seq![oldest] + ids);
    lemma_multiset_commutative(seq![oldest], ids);
    assert(none.push(oldest) =~= seq![oldest]);
    to_multiset_build(none, oldest);
    none.to_multiset_ensures();
    assert(none.to_multiset() =~= Multiset::empty());
}

/// What holds of a single call of any kind.
proof fn lemma_call<F, E, H>(call: Call<F, E, H>)
    requires
        call.happened(),
    ensures
        keeps_identity(call.pre, call.before, call.post, call.after),
        !call.pre.terminal_emitted ==> call_is_sound(call),
{
    match call.deed {
        Deed::Steer { .. } => lemma_steer(call),
        Deed::Interrupt { .. } => lemma_interrupt(call),
        Deed::Exit { .. } => lemma_exit(call),
        Deed::Take { .. } => {
            assert(call.before.take(call.before.len() as int) =~= call.before);
            assert(call.before.skip(call.before.len() as int) =~= Seq::empty());
        },
    }
}

/// No call changes which run and which session it is about, how long its process
/// may take to end, or how much of a harness's words is recorded. Each leaves
/// earlier offers alone and adds offers for its own run only.
pub proof fn law_identity_is_kept<F, E, H>(call: Call<F, E, H>)
    requires
        call.happened(),
    ensures
        keeps_identity(call.pre, call.before, call.post, call.after),
{
    lemma_call(call);
}

/// Once the terminal event is out, nothing is offered any more and nothing
/// changes.
pub proof fn law_closed_log_stays_closed<F, E, H>(call: Call<F, E, H>)
    requires
        call.happened(),
        call.pre.terminal_emitted,
    ensures
        call.post == call.pre,
        call.after == call.before,
{
}

/// The state of a run after its first `n` calls.
pub open spec fn state_at<F, E, H>(
    start: ControlState,
    calls: Seq<Call<F, E, H>>,
    n: int,
) -> ControlState {
    if n <= 0 {
        start
    } else {
        calls[n - 1].post
    }
}

/// Whether the call `i` can have gone as it did, from the state that the call before
/// it left.
pub open spec fn follows<F, E, H>(
    start: ControlState,
    calls: Seq<Call<F, E, H>>,
    i: int,
) -> bool {
    &&& calls[i].happened()
    &&& calls[i].pre == state_at(start, calls, i)
}

/// Whether `calls` is what a run goes through from `start` on, the state that
/// [`new`](crate::RunControl::new) gives. Each call begins in the state in which
/// the last one left the run. Nothing is said of the sink between two calls: others
/// may offer it whatever they like, for this run or for another.
pub open spec fn history<F, E, H>(start: ControlState, calls: Seq<Call<F, E, H>>) -> bool {
    &&& start.live
    &&& !start.terminal_emitted
    &&& start.pending == Seq::<Steer>::empty()
    &&& forall|i: int| 0 <= i < calls.len() ==> #[trigger] follows(start, calls, i)
}

/// Whether the sink took all that the calls offered.
pub open spec fn smooth<F, E, H>(calls: Seq<Call<F, E, H>>) -> bool {
    forall|i: int| 0 <= i < calls.len() ==> (#[trigger] calls[i]).smooth()
}

/// What the first `n` calls put on the log, in order.
pub open spec fn own_log<F, E, H>(calls: Seq<Call<F, E, H>>, n: int) -> Seq<DraftView<F>>
    decreases n,
{
    if n <= 0 {
        Seq::empty()
    } else {
        own_log(calls, n - 1) + calls[n - 1].recorded()
    }
}

/// The ids of the steers that the first `n` calls did not refuse.
pub open spec fn accepted_steers<F, E, H>(calls: Seq<Call<F, E, H>>, n: int) -> Multiset<Seq<char>>
    decreases n,
{
    if n <= 0 {
        Multiset::empty()
    } else {
        accepted_steers(calls, n - 1).add(calls[n - 1].accepted_steer())
    }
}

/// The ids of the interrupts that the first `n` calls carried out, or answered as
/// not live.
pub open spec fn answered_interrupts<F, E, H>(calls: Seq<Call<F, E, H>>, n: int) -> Multiset<
    Seq<char>,
>
    decreases n,
{
    if n <= 0 {
        Multiset::empty()
    } else {
        answered_interrupts(calls, n - 1).add(calls[n - 1].answered_interrupt())
    }
}

/// The ids of the interrupts that the first `n` calls recorded and could not carry
/// out, because the process was not ended.
pub open spec fn failed_interrupts<F, E, H>(calls: Seq<Call<F, E, H>>, n: int) -> Multiset<
    Seq<char>,
>
    decreases n,
{
    if n <= 0 {
        Multiset::empty()
    } else {
        failed_interrupts(calls, n - 1).add(calls[n - 1].failed_interrupt())
    }
}

/// After every call of a run, control has recorded a terminal event if and only if
/// the run is closed. There is never a second one, and nothing that control records
/// follows it. A closed run neither runs nor keeps steers waiting.
pub proof fn law_terminal_event_is_single_and_last<F, E, H>(
    start: ControlState,
    calls: Seq<Call<F, E, H>>,
    n: int,
)
    requires
        history(start, calls),
        0 <= n <= calls.len(),
    ensures
        fits(state_at(start, calls, n), own_log(calls, n)),
    decreases n,
{
    if n > 0 {
        law_terminal_event_is_single_and_last(start, calls, n - 1);
        let call = calls[n - 1];
        assert(follows(start, calls, n - 1));
        lemma_call(call);
        if call.pre.terminal_emitted {
            law_closed_log_stays_closed(call);
            assert(call.after.skip(call.before.len() as int) =~= Seq::empty());
            assert(own_log(calls, n) =~= own_log(calls, n - 1));
        } else {
            lemma_terminals_add(own_log(calls, n - 1), call.recorded());
        }
    }
}

/// As long as the sink takes what it is offered, the process of a run is running if
/// and only if control has recorded no terminal event.
pub proof fn law_run_is_live_until_its_terminal_event<F, E, H>(
    start: ControlState,
    calls: Seq<Call<F, E, H>>,
    n: int,
)
    requires
        history(start, calls),
        smooth(calls),
        0 <= n <= calls.len(),
    ensures
        state_at(start, calls, n).live == !state_at(start, calls, n).terminal_emitted,
        state_at(start, calls, n).live == (terminals(own_log(calls, n)) == 0),
    decreases n,
{
    law_terminal_event_is_single_and_last(start, calls, n);
    if n > 0 {
        law_run_is_live_until_its_terminal_event(start, calls, n - 1);
        assert(follows(start, calls, n - 1));
        lemma_call(calls[n - 1]);
        assert(calls[n - 1].smooth());
    }
}

/// A balance that held before a call and one of the call itself make one after it.
proof fn lemma_balance_carries<A>(
    answered: Multiset<A>,
    waited: Multiset<A>,
    steers: Multiset<A>,
    interrupts: Multiset<A>,
    answers: Multiset<A>,
    waits: Multiset<A>,
    steer: Multiset<A>,
    interrupt: Multiset<A>,
)
    requires
        answered.add(waited) == steers.add(interrupts),
        answers.add(waits) == waited.add(steer).add(interrupt),
    ensures
        answered.add(answers).add(waits) =~= steers.add(steer).add(interrupts.add(interrupt)),
{
    assert forall|id: A| #[trigger] answered.add(answers).add(waits).count(id) == steers.add(
        steer,
    ).add(interrupts.add(interrupt)).count(id) by {
        assert(answered.add(waited).count(id) == answered.count(id) + waited.count(id));
        assert(steers.add(interrupts).count(id) == steers.count(id) + interrupts.count(id));
        assert(answers.add(waits).count(id) == answers.count(id) + waits.count(id));
        assert(waited.add(steer).add(interrupt).count(id) == waited.count(id) + steer.count(id)
            + interrupt.count(id));
        assert(answered.add(answers).count(id) == answered.count(id) + answers.count(id));
        assert(steers.add(steer).count(id) == steers.count(id) + steer.count(id));
    }
}

/// As long as the sink takes what it is offered: what control has answered, and what
/// waits, is what steers and interrupts were accepted for, each id as often; and
/// every steer that waits was accepted.
pub proof fn law_accepted_controls_are_answered_or_wait<F, E, H>(
    start: ControlState,
    calls: Seq<Call<F, E, H>>,
    n: int,
)
    requires
        history(start, calls),
        smooth(calls),
        0 <= n <= calls.len(),
    ensures
        answered_ids(own_log(calls, n)).add(waiting_ids(state_at(start, calls, n).pending))
            =~= accepted_steers(calls, n).add(answered_interrupts(calls, n)),
        waiting_ids(state_at(start, calls, n).pending).subset_of(accepted_steers(calls, n)),
    decreases n,
{
    if n > 0 {
        law_accepted_controls_are_answered_or_wait(start, calls, n - 1);
        law_terminal_event_is_single_and_last(start, calls, n - 1);
        let call = calls[n - 1];
        assert(follows(start, calls, n - 1));
        lemma_call(call);
        assert(call.smooth());
        if call.pre.terminal_emitted {
            law_closed_log_stays_closed(call);
            assert(call.after.skip(call.before.len() as int) =~= Seq::empty());
            assert(own_log(calls, n) =~= own_log(calls, n - 1));
        } else {
            lemma_answered_add(own_log(calls, n - 1), call.recorded());
            lemma_balance_carries(
                answered_ids(own_log(calls, n - 1)),
                waiting_ids(call.pre.pending),
                accepted_steers(calls, n - 1),
                answered_interrupts(calls, n - 1),
                answered_ids(call.recorded()),
                waiting_ids(call.post.pending),
                call.accepted_steer(),
                call.answered_interrupt(),
            );
        }
    } else {
        lemma_nothing_waits(start.pending);
    }
}

/// As long as the sink takes what it is offered, every request that control has
/// recorded was answered or belongs to a steer that waits, each as often as it was
/// recorded, but for the interrupts whose process was not ended.
pub proof fn law_requests_are_answered_or_wait<F, E, H>(
    start: ControlState,
    calls: Seq<Call<F, E, H>>,
    n: int,
)
    requires
        history(start, calls),
        smooth(calls),
        0 <= n <= calls.len(),
    ensures
        requested_ids(own_log(calls, n)) =~= answered_ids(own_log(calls, n)).add(
            waiting_ids(state_at(start, calls, n).pending),
        ).add(failed_interrupts(calls, n)),
    decreases n,
{
    law_accepted_controls_are_answered_or_wait(start, calls, n);
    if n > 0 {
        law_accepted_controls_are_answered_or_wait(start, calls, n - 1);
        law_requests_are_answered_or_wait(start, calls, n - 1);
        let call = calls[n - 1];
        assert(follows(start, calls, n - 1));
        lemma_call(call);
        assert(call.smooth());
        if call.pre.terminal_emitted {
            law_closed_log_stays_closed(call);
            assert(call.after.skip(call.before.len() as int) =~= Seq::empty());
            assert(own_log(calls, n) =~= own_log(calls, n - 1));
        } else {
            lemma_requested_add(own_log(calls, n - 1), call.recorded());
        }
    }
}

/// As long as the sink takes what it is offered, a closed run has answered every
/// request that control has recorded, once for every time it was recorded, but for
/// the interrupts whose process was not ended.
pub proof fn law_closed_run_has_answered_everything<F, E, H>(
    start: ControlState,
    calls: Seq<Call<F, E, H>>,
    n: int,
)
    requires
        history(start, calls),
        smooth(calls),
        0 <= n <= calls.len(),
        state_at(start, calls, n).terminal_emitted,
    ensures
        requested_ids(own_log(calls, n)) =~= answered_ids(own_log(calls, n)).add(
            failed_interrupts(calls, n),
        ),
{
    law_requests_are_answered_or_wait(start, calls, n);
    law_terminal_event_is_single_and_last(start, calls, n);
    lemma_nothing_waits(state_at(start, calls, n).pending);
}

/// The answers among `log` to the given requests.
pub open spec fn answers_to<F>(log: Seq<DraftView<F>>, ids: Multiset<Seq<char>>) -> Multiset<
    Seq<char>,
> {
    answered_ids(log).filter(|id: Seq<char>| ids.contains(id))
}

/// As long as the sink takes what it is offered and no interrupt shares its id with a
/// steer: as many steers wait as were accepted and not answered, no accepted steer is
/// answered more often than it was accepted, and in a closed run each has been
/// answered exactly that often, so that none waits.
pub proof fn law_pending_steers_are_accepted_and_unanswered<F, E, H>(
    start: ControlState,
    calls: Seq<Call<F, E, H>>,
    n: int,
)
    requires
        history(start, calls),
        smooth(calls),
        0 <= n <= calls.len(),
        forall|id: Seq<char>| #[trigger]
            accepted_steers(calls, n).contains(id) ==> !answered_interrupts(calls, n).contains(id),
    ensures
        state_at(start, calls, n).pending.len() == accepted_steers(calls, n).len() - answers_to(
            own_log(calls, n),
            accepted_steers(calls, n),
        ).len(),
        forall|id: Seq<char>| #[trigger]
            accepted_steers(calls, n).contains(id) ==> answered_ids(own_log(calls, n)).count(id)
                <= accepted_steers(calls, n).count(id),
        state_at(start, calls, n).terminal_emitted ==> {
            &&& state_at(start, calls, n).pending.len() == 0
            &&& forall|id: Seq<char>| #[trigger]
                accepted_steers(calls, n).contains(id) ==> answered_ids(own_log(calls, n)).count(id)
                    == accepted_steers(calls, n).count(id)
        },
{
    let pending = state_at(start, calls, n).pending;
    let waiting = waiting_ids(pending);
    let answered = answered_ids(own_log(calls, n));
    let accepted = accepted_steers(calls, n);
    let interrupts = answered_interrupts(calls, n);
    law_accepted_controls_are_answered_or_wait(start, calls, n);
    law_terminal_event_is_single_and_last(start, calls, n);
    assert forall|id: Seq<char>| #[trigger] accepted.contains(id) implies answered.count(id)
        + waiting.count(id) == accepted.count(id) by {
        assert(answered.add(waiting).count(id) == accepted.add(interrupts).count(id));
        assert(!interrupts.contains(id));
    }
    let answers = answers_to(own_log(calls, n), accepted);
    assert forall|id: Seq<char>| #[trigger] answers.add(waiting).count(id) == accepted.count(id) by {
        if !accepted.contains(id) {
            assert(waiting.count(id) <= accepted.count(id));
        }
    }
    assert(answers.add(waiting) =~= accepted);
    to_multiset_len(pending.map_values(|steer: Steer| steer.control_id));
    if state_at(start, calls, n).terminal_emitted {
        lemma_nothing_waits(pending);
    }
}

/// Whether each call finds the handle of a resumed process that the call before it
/// left. [`new`](crate::RunControl::new) leaves none.
pub open spec fn handles_chain<F, E, H>(calls: Seq<Call<F, E, H>>) -> bool {
    forall|i: int| 0 <= i < calls.len() ==> (#[trigger] calls[i]).held == handle_at(calls, i)
}

/// The handle that the first `n` calls leave.
#[verifier::opaque]
pub open spec fn handle_at<F, E, H>(calls: Seq<Call<F, E, H>>, n: int) -> Option<H> {
    if n <= 0 {
        None
    } else {
        calls[n - 1].holds
    }
}

/// The handle that came with the last process that was resumed in the first `n` calls,
/// none where it was taken since or where none came with it.
pub open spec fn last_resumed<F, E, H>(calls: Seq<Call<F, E, H>>, n: int) -> Option<H>
    decreases n,
{
    if n <= 0 {
        None
    } else if calls[n - 1].started() is Some {
        calls[n - 1].started()->0
    } else if calls[n - 1].deed is Take {
        None
    } else {
        last_resumed(calls, n - 1)
    }
}

/// A run holds the process of the last successful resume until it is taken, whatever
/// is called in between.
pub proof fn law_last_resumed_process_is_held<F, E, H>(
    start: ControlState,
    calls: Seq<Call<F, E, H>>,
    n: int,
)
    requires
        history(start, calls),
        handles_chain(calls),
        0 <= n <= calls.len(),
    ensures
        handle_at(calls, n) == last_resumed(calls, n),
    decreases n,
{
    reveal(handle_at);
    if n > 0 {
        law_last_resumed_process_is_held(start, calls, n - 1);
        assert(follows(start, calls, n - 1));
        assert(calls[n - 1].held == handle_at(calls, n - 1));
    }
}

/// [`take_resumed_child`](crate::RunControl::take_resumed_child) gives the process of
/// the last successful resume, and gives it once.
pub proof fn law_taken_process_is_the_last_resumed<F, E, H>(
    start: ControlState,
    calls: Seq<Call<F, E, H>>,
    n: int,
)
    requires
        history(start, calls),
        handles_chain(calls),
        0 <= n < calls.len(),
        calls[n].deed is Take,
    ensures
        calls[n].deed->child == last_resumed(calls, n),
        handle_at(calls, n + 1) is None,
{
    reveal(handle_at);
    law_last_resumed_process_is_held(start, calls, n);
    assert(follows(start, calls, n));
    assert(calls[n].held == handle_at(calls, n));
}

/// A closed run refuses a steer and an interrupt as not live, whatever they hold,
/// takes the end of its process in silence, and resumes nothing.
pub proof fn law_closed_run_refuses_controls<F, E, H>(
    pre: ControlState,
    request: ControlRequestedPayload,
    validated: Result<(), String>,
    stopped: Result<(), ControlError<E>>,
    landed_in: Option<Seq<char>>,
    exit: ProcessExit,
    payload: F,
    asked_before: Seq<Asked<H>>,
    held: Option<H>,
    before: Seq<Offer<F, E>>,
    post: ControlState,
    asked_after: Seq<Asked<H>>,
    holds: Option<H>,
    after: Seq<Offer<F, E>>,
    result: Result<(), ControlError<E>>,
)
    requires
        pre.terminal_emitted,
    ensures
        steer_outcome(pre, request, validated, before, post, after, result) ==> result == Err::<
            (),
            ControlError<E>,
        >(ControlError::NotLive),
        interrupt_outcome(
            pre,
            request,
            validated,
            stopped,
            landed_in,
            payload,
            before,
            post,
            after,
            result,
        ) ==> result == Err::<(), ControlError<E>>(ControlError::NotLive),
        exit_outcome(
            pre,
            exit,
            payload,
            asked_before,
            held,
            before,
            post,
            asked_after,
            holds,
            after,
            result,
        ) ==> result == Ok::<(), ControlError<E>>(()) && asked_after == asked_before && holds
            == held,
{
}

/// A request that is not valid, or not of the kind that was called for, is refused
/// without a trace: nothing is offered and nothing changes.
pub proof fn law_bad_requests_leave_no_trace<F, E>(
    pre: ControlState,
    request: ControlRequestedPayload,
    validated: Result<(), String>,
    stopped: Result<(), ControlError<E>>,
    landed_in: Option<Seq<char>>,
    payload: F,
    before: Seq<Offer<F, E>>,
    post: ControlState,
    after: Seq<Offer<F, E>>,
    result: Result<(), ControlError<E>>,
)
    ensures
        steer_outcome(pre, request, validated, before, post, after, result) && (validated is Err
            || request.kind !is Steer) ==> result is Err && post == pre && after == before,
        interrupt_outcome(
            pre,
            request,
            validated,
            stopped,
            landed_in,
            payload,
            before,
            post,
            after,
            result,
        ) && (validated is Err || request.kind !is Interrupt) ==> result is Err && post == pre
            && after == before,
{
}

/// A session is resumed only where its process ended normally while a steer
/// waited, once for each such end, and with the words of the oldest steer.
pub proof fn law_resume_follows_a_normal_end<F, E, H>(
    pre: ControlState,
    exit: ProcessExit,
    payload: F,
    asked_before: Seq<Asked<H>>,
    held: Option<H>,
    before: Seq<Offer<F, E>>,
    post: ControlState,
    asked_after: Seq<Asked<H>>,
    holds: Option<H>,
    after: Seq<Offer<F, E>>,
    result: Result<(), ControlError<E>>,
)
    requires
        exit_outcome(
            pre,
            exit,
            payload,
            asked_before,
            held,
            before,
            post,
            asked_after,
            holds,
            after,
            result,
        ),
        asked_after != asked_before,
    ensures
        exit is Normal,
        !pre.terminal_emitted,
        pre.pending.len() > 0,
        asked_after.len() == asked_before.len() + 1,
        asked_after.drop_last() == asked_before,
        Some(asked_after.last().session_id) == pre.session_id,
        asked_after.last().text == pre.pending[0].text,
        post.live == (asked_after.last().answer is Ok),
{
    assert(asked_after.drop_last() =~= asked_before);
}

/// Whether the process ended normally between `states[i]` and `states[i + 1]` and
/// the resumer then started the next turn.
pub open spec fn lands<F, E, H>(
    states: Seq<ControlState>,
    asked: Seq<Seq<Asked<H>>>,
    offers: Seq<Seq<Offer<F, E>>>,
    i: int,
) -> bool {
    &&& asked[i + 1].len() > 0
    &&& asked[i + 1].last().answer is Ok
    &&& exists|
        payload: F,
        held: Option<H>,
        holds: Option<H>,
        result: Result<(), ControlError<E>>,
    | #[trigger]
        exit_outcome(
            states[i],
            ProcessExit::Normal,
            payload,
            asked[i],
            held,
            offers[i],
            states[i + 1],
            asked[i + 1],
            holds,
            offers[i + 1],
            result,
        )
}

/// Steers land in the order in which they wait, one at each normal end of a
/// process, all of them in the same session.
pub proof fn law_steers_land_in_order<F, E, H>(
    states: Seq<ControlState>,
    asked: Seq<Seq<Asked<H>>>,
    offers: Seq<Seq<Offer<F, E>>>,
    n: int,
)
    requires
        0 <= n < states.len(),
        n < asked.len(),
        n < offers.len(),
        n <= states[0].pending.len(),
        !states[0].terminal_emitted,
        states[0].session_id is Some,
        forall|i: int| 0 <= i < n ==> #[trigger] lands(states, asked, offers, i),
    ensures
        asked[n].len() == asked[0].len() + n,
        asked[n].take(asked[0].len() as int) == asked[0],
        forall|k: int|
            0 <= k < n ==> {
                let turn = #[trigger] asked[n][asked[0].len() + k];
                &&& turn.session_id == states[0].session_id->0
                &&& turn.text == states[0].pending[k].text
            },
        states[n].pending == states[0].pending.skip(n),
        states[n].session_id == states[0].session_id,
        !states[n].terminal_emitted,
    decreases n,
{
    if n == 0 {
        assert(asked[0].take(asked[0].len() as int) =~= asked[0]);
        assert(states[0].pending.skip(0) =~= states[0].pending);
    } else {
        law_steers_land_in_order(states, asked, offers, n - 1);
        assert(lands(states, asked, offers, n - 1));
        let waiting = states[n - 1].pending;
        assert(waiting[0] == states[0].pending[n - 1]);
        assert(waiting.drop_first() =~= states[0].pending.skip(n));
        assert(asked[n].take(asked[0].len() as int) =~= asked[n - 1].take(asked[0].len() as int));
        assert forall|k: int| 0 <= k < n implies {
            let turn = #[trigger] asked[n][asked[0].len() + k];
            &&& turn.session_id == states[0].session_id->0
            &&& turn.text == states[0].pending[k].text
        } by {
            if k < n - 1 {
                assert(asked[n][asked[0].len() + k] == asked[n - 1][asked[0].len() + k]);
            }
        }
    }
}

/// A steer to a live run only waits: it is recorded, not answered, and takes its
/// place behind the steers that wait already.
pub proof fn law_steer_waits_behind_the_others<F, E>(
    pre: ControlState,
    request: ControlRequestedPayload,
    validated: Result<(), String>,
    before: Seq<Offer<F, E>>,
    post: ControlState,
    after: Seq<Offer<F, E>>,
)
    requires
        pre.live,
        steer_outcome(
            pre,
            request,
            validated,
            before,
            post,
            after,
            Ok::<(), ControlError<E>>(()),
        ),
    ensures
        recorded(before, after) == seq![requested::<F>(request)],
        post == (ControlState {
            pending: pre.pending.push(
                Steer { control_id: request.control_id@, text: words_of(request) },
            ),
            ..pre
        }),
{
    lemma_recorded(pre.run_id, seq![requested::<F>(request)], before, after);
}

/// An interrupt that succeeds against a live run records, in this order, the
/// request, its answer with the tool call that was open, the rejection of every
/// steer that waited, oldest first, and the end of the run. The run is then closed.
pub proof fn law_interrupt_closes_the_run<F, E>(
    pre: ControlState,
    request: ControlRequestedPayload,
    validated: Result<(), String>,
    stopped: Result<(), ControlError<E>>,
    landed_in: Option<Seq<char>>,
    payload: F,
    before: Seq<Offer<F, E>>,
    post: ControlState,
    after: Seq<Offer<F, E>>,
)
    requires
        pre.live,
        interrupt_outcome(
            pre,
            request,
            validated,
            stopped,
            landed_in,
            payload,
            before,
            post,
            after,
            Ok::<(), ControlError<E>>(()),
        ),
    ensures
        recorded(before, after) == seq![
            requested(request),
            applied(request.control_id@, true, None, landed_in, pre.max_excerpt_scalars),
        ] + rejections(pre.pending, pre.max_excerpt_scalars) + seq![finished(payload)],
        post.terminal_emitted,
        !post.live,
        post.pending.len() == 0,
{
    let plan = seq![
        requested(request),
        applied(request.control_id@, true, None, landed_in, pre.max_excerpt_scalars),
    ] + rejections(pre.pending, pre.max_excerpt_scalars) + seq![finished(payload)];
    lemma_recorded(pre.run_id, plan, before, after);
}

/// A process that ends abnormally lands no steer: every steer that waited is
/// rejected, oldest first, and the run is closed.
pub proof fn law_abnormal_end_lands_nothing<F, E, H>(
    pre: ControlState,
    payload: F,
    asked_before: Seq<Asked<H>>,
    held: Option<H>,
    before: Seq<Offer<F, E>>,
    post: ControlState,
    asked_after: Seq<Asked<H>>,
    holds: Option<H>,
    after: Seq<Offer<F, E>>,
)
    requires
        !pre.terminal_emitted,
        exit_outcome(
            pre,
            ProcessExit::Abnormal,
            payload,
            asked_before,
            held,
            before,
            post,
            asked_after,
            holds,
            after,
            Ok::<(), ControlError<E>>(()),
        ),
    ensures
        asked_after == asked_before,
        recorded(before, after) == rejections(pre.pending, pre.max_excerpt_scalars) + seq![
            finished(payload),
        ],
        post.terminal_emitted,
        !post.live,
        post.pending.len() == 0,
{
    let limit = pre.max_excerpt_scalars;
    let plan = rejections(pre.pending, limit) + seq![finished(payload)];
    if pre.pending.len() == 0 {
        assert(plan =~= seq![finished(payload)]);
    } else {
        let first = not_live::<F>(pre.pending[0].control_id, limit);
        let later = rejections::<F>(pre.pending.drop_first(), limit);
        assert(plan =~= seq![first] + later + seq![finished(payload)]);
    }
    lemma_recorded(pre.run_id, plan, before, after);
}

/// Of a harness's own words as many as the limit allows are recorded, from their start
/// on; the answer is flagged as truncated if and only if some were cut off. Every
/// other reason is recorded as it is, without a flag.
pub proof fn law_recorded_words_are_bounded(reason: Option<ReasonView>, limit: nat)
    ensures
        reason matches Some(ReasonView::Unknown(words)) ==> {
            &&& recorded_reason(reason, limit) matches Some(ReasonView::Unknown(kept))
            &&& kept.len() == if words.len() < limit {
                words.len()
            } else {
                limit
            }
            &&& kept == words.take(kept.len() as int)
            &&& recorded_truncation(reason, limit) == if kept.len() < words.len() {
                Some(true)
            } else {
                None
            }
        },
        !(reason matches Some(ReasonView::Unknown(_))) ==> recorded_reason(reason, limit) == reason
            && recorded_truncation(reason, limit) is None,
{
    if let Some(ReasonView::Unknown(words)) = reason {
        assert(words.take(words.len() as int) =~= words);
    }
}

} // verus!
