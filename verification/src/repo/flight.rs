//! Single-flight coalescing for identical proxy fetches.

use vstd::prelude::*;

use crate::repo::engine::{plain_outcome, FetchKind, FetchOutcome};
use crate::table::Table;

verus! {

/// Which side of a coalesced call a caller is on.
#[derive(Debug, Clone, Copy, PartialEq, Eq, Structural)]
pub enum Role {
    /// Performs the work.
    Leader,
    /// Waits for the one who does.
    Waiter,
}

/// Coalesces concurrent work for the same key, so that only one task performs it
/// while the rest wait and observe the same outcome.
pub struct Flight {
    pub calls: Table<()>,
}

impl View for Flight {
    type V = Set<Seq<char>>;

    open spec fn view(&self) -> Set<Seq<char>> {
        self.calls@.dom()
    }
}

impl Flight {
    /// No key occurs twice.
    pub open spec fn wf(&self) -> bool {
        self.calls.wf()
    }

    /// Nothing is in flight.
    pub fn new() -> (r: Flight)
        ensures
            r.wf(),
            r@ == Set::<Seq<char>>::empty(),
    {
        let r = Flight { calls: Table::new() };
        assert(r@ =~= Set::empty());
        r
    }

    /// Joins the work on `key`: the first comer leads, and everyone else waits until
    /// the leader is done.
    pub fn join(&mut self, key: &str) -> (r: Role)
        requires
            old(self).wf(),
        ensures
            final(self).wf(),
            final(self)@ == old(self)@.insert(key@),
            r == Role::Leader <==> !old(self)@.contains(key@),
    {
        let ghost before = self@;
        if self.calls.find(key).is_some() {
            assert(before.insert(key@) =~= before);
            return Role::Waiter;
        }
        self.calls.push(key.to_owned(), ());
        assert(self@ =~= before.insert(key@));
        Role::Leader
    }

    /// Ends the work on `key` and gives what everyone who waits observes: the outcome
    /// of the work, or a failure where the work broke off.
    pub fn finish(&mut self, key: &str, result: Option<FetchOutcome>) -> (r: FetchOutcome)
        requires
            old(self).wf(),
        ensures
            final(self).wf(),
            final(self)@ == old(self)@.remove(key@),
            match result {
                Some(out) => r == out,
                None => plain_outcome(r, FetchKind::Error),
            },
    {
        let ghost before = self@;
        self.calls.remove(key);
        assert(self@ =~= before.remove(key@));
        match result {
            Some(out) => out,
            None => FetchOutcome::error(),
        }
    }
}

/// What one who waits observes: what the leader published, or a failure where the
/// leader vanished without a word.
pub fn observed(published: Option<&FetchOutcome>) -> (r: FetchOutcome)
    ensures
        match published {
            Some(out) => r.kind == out.kind && r.status == out.status && r.retry_after@
                == out.retry_after@,
            None => plain_outcome(r, FetchKind::Error),
        },
{
    match published {
        Some(out) => out.copy(),
        None => FetchOutcome::error(),
    }
}

/// One event of a flight: someone joins the work on a key, or its leader is done.
pub ghost enum Event {
    Join(Seq<char>),
    Finish(Seq<char>),
}

/// What is in flight after the events.
pub open spec fn in_flight(events: Seq<Event>) -> Set<Seq<char>>
    decreases events.len(),
{
    if events.len() == 0 {
        Set::empty()
    } else {
        let before = in_flight(events.drop_last());
        match events.last() {
            Event::Join(k) => before.insert(k),
            Event::Finish(k) => before.remove(k),
        }
    }
}

/// The `i`-th event makes someone the leader on `key`.
pub open spec fn leads_at(events: Seq<Event>, i: int, key: Seq<char>) -> bool {
    &&& 0 <= i < events.len()
    &&& events[i] == Event::Join(key)
    &&& !in_flight(events.take(i)).contains(key)
}

/// Work on one key is never done twice at the same time: between two leaders on a key
/// the first of them has finished.
pub proof fn one_leader_at_a_time(events: Seq<Event>, key: Seq<char>, i: int, j: int)
    requires
        leads_at(events, i, key),
        leads_at(events, j, key),
        i < j,
    ensures
        exists|k: int| i < k < j && #[trigger] events[k] == Event::Finish(key),
{
    if forall|k: int| i < k < j ==> #[trigger] events[k] != Event::Finish(key) {
        lemma_stays_in_flight(events, key, i, j);
    }
}

proof fn lemma_stays_in_flight(events: Seq<Event>, key: Seq<char>, i: int, j: int)
    requires
        0 <= i < j <= events.len(),
        events[i] == Event::Join(key),
        forall|k: int| i < k < j ==> #[trigger] events[k] != Event::Finish(key),
    ensures
        in_flight(events.take(j)).contains(key),
    decreases j - i,
{
    assert(events.take(j).drop_last() =~= events.take(j - 1));
    assert(events.take(j).last() == events[j - 1]);
    if j - 1 > i {
        lemma_stays_in_flight(events, key, i, j - 1);
    }
}

/// Once the leader is done, whatever became of the work, the next comer leads again:
/// no key stays wedged.
pub proof fn finished_key_is_free(events: Seq<Event>, key: Seq<char>)
    ensures
        !in_flight(events.push(Event::Finish(key))).contains(key),
        leads_at(
            events.push(Event::Finish(key)).push(Event::Join(key)),
            events.len() as int + 1,
            key,
        ),
{
    let done = events.push(Event::Finish(key));
    assert(done.drop_last() =~= events);
    assert(done.push(Event::Join(key)).take(events.len() as int + 1) =~= done);
}

/// Work on one key does not hold up work on another.
pub proof fn keys_do_not_interfere(events: Seq<Event>, e: Event, key: Seq<char>)
    requires
        e != Event::Join(key),
        e != Event::Finish(key),
    ensures
        in_flight(events.push(e)).contains(key) <==> in_flight(events).contains(key),
{
    assert(events.push(e).drop_last() =~= events);
}

} // verus!
