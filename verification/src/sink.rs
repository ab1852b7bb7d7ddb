//! Where the events of a run go, and what watches the run.

use vstd::prelude::*;

use crate::event::{DraftView, EventDraft};

verus! {

/// One event that a sink was asked to append, and the fault with which it
/// refused, if it did.
pub struct Offer<F, E> {
    pub run_id: Seq<char>,
    pub draft: DraftView<F>,
    pub fault: Option<E>,
}

/// The fault in the result of an append.
pub open spec fn fault_of<E>(result: Result<(), E>) -> Option<E> {
    match result {
        Ok(_) => None,
        Err(fault) => Some(fault),
    }
}

/// Takes the events of runs, in order.
pub trait Sink<F> {
    /// Why an event was refused.
    type Fault;

    /// Every event this sink was ever asked to append, refused ones included.
    /// It stands for the history of calls, which a sink does not have to keep.
    closed spec fn offers(&self) -> Seq<Offer<F, Self::Fault>> {
        arbitrary()
    }

    /// Append one event to the log of the run `run_id`.
    fn append(&mut self, run_id: &str, draft: EventDraft<F>) -> (appended: Result<(), Self::Fault>)
        ensures
            final(self).offers() == old(self).offers().push(
                Offer { run_id: run_id@, draft: draft@, fault: fault_of(appended) },
            ),
    ;
}

/// Keeps the events of runs in memory and refuses none of them.
#[derive(Debug)]
pub struct MemorySink<F> {
    events: Vec<(String, EventDraft<F>)>,
}

impl<F> MemorySink<F> {
    /// A sink without events.
    pub fn new() -> (sink: Self)
        ensures
            sink.offers() == Seq::<Offer<F, ()>>::empty(),
    {
        let sink = MemorySink { events: Vec::new() };
        assert(sink.offers() =~= Seq::<Offer<F, ()>>::empty());
        sink
    }

    /// The events, each with the run that it belongs to.
    pub fn events(&self) -> (events: &Vec<(String, EventDraft<F>)>)
        ensures
            events@.len() == self.offers().len(),
            forall|i: int|
                0 <= i < events@.len() ==> #[trigger] self.offers()[i] == (Offer {
                    run_id: events@[i].0@,
                    draft: events@[i].1@,
                    fault: None::<()>,
                }),
    {
        &self.events
    }
}

impl<F> Sink<F> for MemorySink<F> {
    type Fault = ();

    closed spec fn offers(&self) -> Seq<Offer<F, ()>> {
        Seq::new(
            self.events@.len(),
            |i: int|
                Offer { run_id: self.events@[i].0@, draft: self.events@[i].1@, fault: None },
        )
    }

    fn append(&mut self, run_id: &str, draft: EventDraft<F>) -> (appended: Result<(), ()>)
        ensures
            appended is Ok,
    {
        self.events.push((run_id.to_owned(), draft));
        assert(self.offers() =~= old(self).offers().push(
            Offer { run_id: run_id@, draft: draft@, fault: None },
        ));
        Ok(())
    }
}

/// A [`MemorySink`] takes every event that it is offered.
pub proof fn law_memory_sink_refuses_nothing<F>(sink: MemorySink<F>)
    ensures
        forall|i: int| 0 <= i < sink.offers().len() ==> (#[trigger] sink.offers()[i]).fault is None,
{
}

/// Watches a run from its start to its end.
pub trait Watchdog<F> {
    /// The most recently opened tool call that has no result yet.
    fn most_recent_open_tool_call(&self) -> Option<String>;

    /// What is reported of the run where it ends by an interrupt now.
    fn interrupted_payload(&self) -> F;
}

/// Whether `after` follows from `before` by offering the drafts of `plan` for
/// `run_id`, one after the other, up to the first that is refused.
pub open spec fn offered<F, E>(
    run_id: Seq<char>,
    plan: Seq<DraftView<F>>,
    before: Seq<Offer<F, E>>,
    after: Seq<Offer<F, E>>,
) -> bool {
    let n = after.len() - before.len();
    &&& 0 <= n <= plan.len()
    &&& after.take(before.len() as int) == before
    &&& forall|i: int|
        before.len() <= i < after.len() ==> {
            let offer = #[trigger] after[i];
            &&& offer.run_id == run_id
            &&& offer.draft == plan[i - before.len()]
            &&& i < after.len() - 1 ==> offer.fault is None
        }
    &&& n < plan.len() ==> refused(before, after)
}

/// Whether the last of the offers that `after` adds to `before` was refused.
pub open spec fn refused<F, E>(before: Seq<Offer<F, E>>, after: Seq<Offer<F, E>>) -> bool {
    after.len() > before.len() && after.last().fault is Some
}

/// Offering nothing changes nothing.
pub proof fn lemma_offered_nothing<F, E>(run_id: Seq<char>, log: Seq<Offer<F, E>>)
    ensures
        offered(run_id, Seq::<DraftView<F>>::empty(), log, log),
        !refused(log, log),
{
    assert(log.take(log.len() as int) =~= log);
}

/// Offering one draft.
pub proof fn lemma_offered_one<F, E>(
    run_id: Seq<char>,
    draft: DraftView<F>,
    before: Seq<Offer<F, E>>,
    fault: Option<E>,
)
    ensures
        offered(run_id, seq![draft], before, before.push(Offer { run_id, draft, fault })),
        refused(before, before.push(Offer { run_id, draft, fault })) == (fault is Some),
{
    let after = before.push(Offer { run_id, draft, fault });
    assert(after.take(before.len() as int) =~= before);
}

/// A plan whose first part was refused somewhere has been carried out as far as
/// the whole plan can be.
pub proof fn lemma_offered_stops<F, E>(
    run_id: Seq<char>,
    first: Seq<DraftView<F>>,
    rest: Seq<DraftView<F>>,
    before: Seq<Offer<F, E>>,
    after: Seq<Offer<F, E>>,
)
    requires
        offered(run_id, first, before, after),
        refused(before, after),
    ensures
        offered(run_id, first + rest, before, after),
{
    assert forall|i: int| before.len() <= i < after.len() implies (#[trigger] after[i]).draft == (
    first + rest)[i - before.len()] by {
        assert((first + rest)[i - before.len()] == first[i - before.len()]);
    }
}

/// Two plans carried out one after the other are one plan carried out.
pub proof fn lemma_offered_continues<F, E>(
    run_id: Seq<char>,
    first: Seq<DraftView<F>>,
    rest: Seq<DraftView<F>>,
    before: Seq<Offer<F, E>>,
    between: Seq<Offer<F, E>>,
    after: Seq<Offer<F, E>>,
)
    requires
        offered(run_id, first, before, between),
        !refused(before, between),
        offered(run_id, rest, between, after),
    ensures
        offered(run_id, first + rest, before, after),
        refused(before, after) == refused(between, after),
        between.len() == before.len() + first.len(),
{
    assert(after.take(before.len() as int) =~= before) by {
        assert forall|i: int| 0 <= i < before.len() implies after[i] == before[i] by {
            assert(after.take(between.len() as int)[i] == between[i]);
            assert(between.take(before.len() as int)[i] == before[i]);
        }
    }
    assert forall|i: int| before.len() <= i < after.len() implies {
        let offer = #[trigger] after[i];
        &&& offer.run_id == run_id
        &&& offer.draft == (first + rest)[i - before.len()]
        &&& i < after.len() - 1 ==> offer.fault is None
    } by {
        if i < between.len() {
            assert(after.take(between.len() as int)[i] == between[i]);
        }
    }
}

/// An append has a fault if and only if it failed, and it is the one it failed with.
pub proof fn law_fault_is_that_of_the_append<E>(result: Result<(), E>)
    ensures
        match result {
            Ok(_) => fault_of(result) is None,
            Err(fault) => fault_of(result) == Some(fault),
        },
{
}

} // verus!
