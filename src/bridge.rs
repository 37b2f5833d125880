//! The decisions of the bridge's lifetime as a state machine: create the
//! mappings one segment at a time in configuration order, wait for the
//! interrupt, unlink every backing file, and only then release the mappings.
//! The caller performs each action and reports what came of it.

use vstd::prelude::*;

verus! {

/// Where the bridge stands in its lifetime.
#[derive(Debug, Clone, Copy, PartialEq, Eq, Structural)]
pub enum Phase {
    Creating,
    Waiting,
    Unlinking,
    Releasing,
    Finished,
    Failed,
}

/// What the caller reports back.
#[derive(Debug, Clone, Copy, PartialEq, Eq, Structural)]
pub enum Event {
    /// The mapping of the segment last asked for was created.
    MappingCreated,
    /// Opening, sizing or mapping the segment last asked for failed.
    MappingFailed,
    /// The interrupt that asks the bridge to stop arrived.
    Interrupted,
    /// The backing file last asked for was unlinked (`true`), or the unlink
    /// failed and the failure was recorded (`false`).
    Unlinked(bool),
    /// Every mapping handle was released.
    Released,
}

/// What the caller is to do next.
#[derive(Debug, Clone, Copy, PartialEq, Eq, Structural)]
pub enum Action {
    /// Open the backing file of the segment with this index and map it.
    Create(usize),
    /// Block until the interrupt arrives.
    Wait,
    /// Unlink the backing file of the segment with this index, by path.
    Unlink(usize),
    /// Release every mapping handle.
    ReleaseAll,
    /// Release every mapping created so far and fail, naming the segment with
    /// this index.
    Abort(usize),
    /// Stop; the run succeeded.
    Exit,
    /// The event does not belong to the current phase; nothing to do.
    Ignore,
}

/// The state of one run of the bridge over `segments` configured segments.
#[derive(Debug, Clone, Copy, PartialEq, Eq, Structural)]
pub struct Bridge {
    pub segments: usize,
    pub created: usize,
    pub unlinked: usize,
    pub unlink_failures: usize,
    pub phase: Phase,
}

impl Bridge {
    /// The states that a run can reach.
    pub open spec fn wf(self) -> bool {
        &&& self.created <= self.segments
        &&& self.unlinked <= self.segments
        &&& self.unlink_failures <= self.unlinked
        &&& (self.phase is Creating ==> self.created < self.segments && self.unlinked == 0)
        &&& (self.phase is Failed ==> self.created < self.segments && self.unlinked == 0)
        &&& (self.phase is Waiting ==> self.created == self.segments && self.unlinked == 0)
        &&& (self.phase is Unlinking ==> self.created == self.segments && self.unlinked
            < self.segments)
        &&& (self.phase is Releasing || self.phase is Finished ==> self.created == self.segments
            && self.unlinked == self.segments)
    }

    /// The state of a run that has not started, and its first action.
    pub open spec fn initial(segments: usize) -> (Bridge, Action) {
        if segments == 0 {
            (Bridge { segments, created: 0, unlinked: 0, unlink_failures: 0, phase: Phase::Waiting }, Action::Wait)
        } else {
            (Bridge { segments, created: 0, unlinked: 0, unlink_failures: 0, phase: Phase::Creating }, Action::Create(0))
        }
    }

    /// The next state and action after an event.
    pub open spec fn transition(self, e: Event) -> (Bridge, Action) {
        match (self.phase, e) {
            (Phase::Creating, Event::MappingCreated) => {
                let created = (self.created + 1) as usize;
                if created == self.segments {
                    (Bridge { created, phase: Phase::Waiting, ..self }, Action::Wait)
                } else {
                    (Bridge { created, ..self }, Action::Create(created))
                }
            },
            (Phase::Creating, Event::MappingFailed) => (
                Bridge { phase: Phase::Failed, ..self },
                Action::Abort(self.created),
            ),
            (Phase::Waiting, Event::Interrupted) => {
                if self.segments == 0 {
                    (Bridge { phase: Phase::Releasing, ..self }, Action::ReleaseAll)
                } else {
                    (Bridge { phase: Phase::Unlinking, ..self }, Action::Unlink(0))
                }
            },
            (Phase::Unlinking, Event::Unlinked(ok)) => {
                let unlinked = (self.unlinked + 1) as usize;
                let unlink_failures = if ok {
                    self.unlink_failures
                } else {
                    (self.unlink_failures + 1) as usize
                };
                if unlinked == self.segments {
                    (
                        Bridge { unlinked, unlink_failures, phase: Phase::Releasing, ..self },
                        Action::ReleaseAll,
                    )
                } else {
                    (Bridge { unlinked, unlink_failures, ..self }, Action::Unlink(unlinked))
                }
            },
            (Phase::Releasing, Event::Released) => (
                Bridge { phase: Phase::Finished, ..self },
                Action::Exit,
            ),
            _ => (self, Action::Ignore),
        }
    }

    /// Starts a run over `segments` configured segments.
    pub fn new(segments: usize) -> (r: (Bridge, Action))
        ensures
            r == Bridge::initial(segments),
            r.0.wf(),
    {
        if segments == 0 {
            (Bridge { segments, created: 0, unlinked: 0, unlink_failures: 0, phase: Phase::Waiting }, Action::Wait)
        } else {
            (Bridge { segments, created: 0, unlinked: 0, unlink_failures: 0, phase: Phase::Creating }, Action::Create(0))
        }
    }

    /// Takes an event and returns the action that follows.
    pub fn step(&mut self, e: Event) -> (a: Action)
        requires
            old(self).wf(),
        ensures
            (*final(self), a) == old(self).transition(e),
            final(self).wf(),
    {
        match (self.phase, e) {
            (Phase::Creating, Event::MappingCreated) => {
                self.created = self.created + 1;
                if self.created == self.segments {
                    self.phase = Phase::Waiting;
                    Action::Wait
                } else {
                    Action::Create(self.created)
                }
            },
            (Phase::Creating, Event::MappingFailed) => {
                self.phase = Phase::Failed;
                Action::Abort(self.created)
            },
            (Phase::Waiting, Event::Interrupted) => {
                if self.segments == 0 {
                    self.phase = Phase::Releasing;
                    Action::ReleaseAll
                } else {
                    self.phase = Phase::Unlinking;
                    Action::Unlink(0)
                }
            },
            (Phase::Unlinking, Event::Unlinked(ok)) => {
                self.unlinked = self.unlinked + 1;
                if !ok {
                    self.unlink_failures = self.unlink_failures + 1;
                }
                if self.unlinked == self.segments {
                    self.phase = Phase::Releasing;
                    Action::ReleaseAll
                } else {
                    Action::Unlink(self.unlinked)
                }
            },
            (Phase::Releasing, Event::Released) => {
                self.phase = Phase::Finished;
                Action::Exit
            },
            _ => Action::Ignore,
        }
    }
}

/// Every state that a run reaches from its start is well formed.
pub proof fn lemma_transition_keeps_wf(s: Bridge, e: Event)
    requires
        s.wf(),
    ensures
        s.transition(e).0.wf(),
        Bridge::initial(s.segments).0.wf(),
{
}

/// The mappings are released only once every backing file has had its unlink
/// attempted, and only after the interrupt: never during startup.
pub proof fn lemma_release_follows_every_unlink(s: Bridge, e: Event)
    requires
        s.wf(),
        s.transition(e).1 == Action::ReleaseAll,
    ensures
        s.transition(e).0.unlinked == s.segments,
        s.transition(e).0.created == s.segments,
        s.transition(e).0.phase == Phase::Releasing,
        s.phase is Waiting || s.phase is Unlinking,
{
}

/// A failed startup names the segment that failed, which is the one after
/// the last created mapping, and unlinks nothing.
pub proof fn lemma_abort_names_failed_segment(s: Bridge, e: Event)
    requires
        s.wf(),
        s.transition(e).1 is Abort,
    ensures
        s.phase is Creating,
        e is MappingFailed,
        s.transition(e).1 == Action::Abort(s.created),
        s.created < s.segments,
        s.transition(e).0.unlinked == 0,
{
}

/// The final state and the actions of a run that takes the events in order.
pub open spec fn run(s: Bridge, es: Seq<Event>) -> (Bridge, Seq<Action>)
    decreases es.len(),
{
    if es.len() == 0 {
        (s, Seq::empty())
    } else {
        let (t, a) = s.transition(es[0]);
        let (f, acts) = run(t, es.drop_first());
        (f, seq![a] + acts)
    }
}

pub open spec fn repeat(e: Event, k: nat) -> Seq<Event> {
    Seq::new(k, |i: int| e)
}

/// The events of a run in which every mapping is created, the interrupt
/// arrives, every unlink succeeds and the handles are released.
pub open spec fn cycle_events(n: nat) -> Seq<Event> {
    repeat(Event::MappingCreated, n) + seq![Event::Interrupted] + repeat(Event::Unlinked(true), n)
        + seq![Event::Released]
}

/// The actions of such a run, its first action included.
pub open spec fn cycle_actions(n: nat) -> Seq<Action> {
    Seq::new(n, |i: int| Action::Create(i as usize)) + seq![Action::Wait] + Seq::new(
        n,
        |i: int| Action::Unlink(i as usize),
    ) + seq![Action::ReleaseAll, Action::Exit]
}

pub proof fn lemma_run_concat(s: Bridge, a: Seq<Event>, b: Seq<Event>)
    ensures
        run(s, a + b) == (run(run(s, a).0, b).0, run(s, a).1 + run(run(s, a).0, b).1),
    decreases a.len(),
{
    if a.len() == 0 {
        assert(a + b =~= b);
        assert(run(s, a).1 + run(s, b).1 =~= run(s, b).1);
    } else {
        let t = s.transition(a[0]).0;
        assert((a + b).drop_first() =~= a.drop_first() + b);
        lemma_run_concat(t, a.drop_first(), b);
        let x = run(t, a.drop_first()).1;
        let y = run(run(t, a.drop_first()).0, b).1;
        assert(seq![s.transition(a[0]).1] + (x + y) =~= (seq![s.transition(a[0]).1] + x) + y);
    }
}

proof fn lemma_creating_run(s: Bridge, k: nat)
    requires
        s.wf(),
        s.phase is Creating,
        k == s.segments - s.created,
    ensures
        run(s, repeat(Event::MappingCreated, k)) == (
            Bridge { created: s.segments, phase: Phase::Waiting, ..s },
            Seq::new((k - 1) as nat, |i: int| Action::Create((s.created + 1 + i) as usize)).push(
                Action::Wait,
            ),
        ),
    decreases k,
{
    let es = repeat(Event::MappingCreated, k);
    let t = s.transition(Event::MappingCreated).0;
    assert(es.drop_first() =~= repeat(Event::MappingCreated, (k - 1) as nat));
    assert(es[0] == Event::MappingCreated);
    if k == 1 {
        assert(es.drop_first() =~= Seq::<Event>::empty());
        assert(t == Bridge { created: s.segments, phase: Phase::Waiting, ..s });
        assert(run(t, es.drop_first()) == (t, Seq::<Action>::empty()));
        assert(Seq::new(0, |i: int| Action::Create((s.created + 1 + i) as usize)).push(Action::Wait)
            =~= seq![Action::Wait] + Seq::<Action>::empty());
    } else {
        lemma_creating_run(t, (k - 1) as nat);
        assert(seq![Action::Create((s.created + 1) as usize)] + Seq::new(
            (k - 2) as nat,
            |i: int| Action::Create((t.created + 1 + i) as usize),
        ).push(Action::Wait) =~= Seq::new(
            (k - 1) as nat,
            |i: int| Action::Create((s.created + 1 + i) as usize),
        ).push(Action::Wait));
    }
}

proof fn lemma_unlinking_run(s: Bridge, k: nat)
    requires
        s.wf(),
        s.phase is Unlinking,
        k == s.segments - s.unlinked,
    ensures
        run(s, repeat(Event::Unlinked(true), k)) == (
            Bridge { unlinked: s.segments, phase: Phase::Releasing, ..s },
            Seq::new((k - 1) as nat, |i: int| Action::Unlink((s.unlinked + 1 + i) as usize)).push(
                Action::ReleaseAll,
            ),
        ),
    decreases k,
{
    let es = repeat(Event::Unlinked(true), k);
    let t = s.transition(Event::Unlinked(true)).0;
    assert(es.drop_first() =~= repeat(Event::Unlinked(true), (k - 1) as nat));
    assert(es[0] == Event::Unlinked(true));
    if k == 1 {
        assert(es.drop_first() =~= Seq::<Event>::empty());
        assert(t == Bridge { unlinked: s.segments, phase: Phase::Releasing, ..s });
        assert(run(t, es.drop_first()) == (t, Seq::<Action>::empty()));
        assert(Seq::new(0, |i: int| Action::Unlink((s.unlinked + 1 + i) as usize)).push(
            Action::ReleaseAll,
        ) =~= seq![Action::ReleaseAll] + Seq::<Action>::empty());
    } else {
        lemma_unlinking_run(t, (k - 1) as nat);
        assert(seq![Action::Unlink((s.unlinked + 1) as usize)] + Seq::new(
            (k - 2) as nat,
            |i: int| Action::Unlink((t.unlinked + 1 + i) as usize),
        ).push(Action::ReleaseAll) =~= Seq::new(
            (k - 1) as nat,
            |i: int| Action::Unlink((s.unlinked + 1 + i) as usize),
        ).push(Action::ReleaseAll));
    }
}

/// A full cycle over `n` segments creates each segment once, in order, waits
/// once, unlinks each backing file once, in order, releases the handles once,
/// after the last unlink, and exits with every file unlinked.
pub proof fn lemma_full_cycle(n: usize)
    ensures
        ({
            let (s0, a0) = Bridge::initial(n);
            let (f, acts) = run(s0, cycle_events(n as nat));
            &&& f.phase == Phase::Finished
            &&& f.created == n
            &&& f.unlinked == n
            &&& f.unlink_failures == 0
            &&& seq![a0] + acts == cycle_actions(n as nat)
        }),
{
    let (s0, a0) = Bridge::initial(n);
    let creates = repeat(Event::MappingCreated, n as nat);
    let unlinks = repeat(Event::Unlinked(true), n as nat);
    let es = cycle_events(n as nat);
    assert(es =~= creates + (seq![Event::Interrupted] + (unlinks + seq![Event::Released])));
    lemma_run_concat(s0, creates, seq![Event::Interrupted] + (unlinks + seq![Event::Released]));
    let s1 = run(s0, creates).0;
    lemma_run_concat(s1, seq![Event::Interrupted], unlinks + seq![Event::Released]);
    let s2 = run(s1, seq![Event::Interrupted]).0;
    lemma_run_concat(s2, unlinks, seq![Event::Released]);
    let s3 = run(s2, unlinks).0;
    assert(seq![Event::Interrupted].drop_first() =~= Seq::<Event>::empty());
    assert(seq![Event::Released].drop_first() =~= Seq::<Event>::empty());
    assert(run(s1.transition(Event::Interrupted).0, Seq::<Event>::empty()).1 =~= Seq::<Action>::empty());
    assert(run(s3.transition(Event::Released).0, Seq::<Event>::empty()).1 =~= Seq::<Action>::empty());
    let r1 = run(s1, seq![Event::Interrupted]);
    let r3 = run(s3, seq![Event::Released]);
    assert(r1 == (s1.transition(Event::Interrupted).0, seq![s1.transition(Event::Interrupted).1] + Seq::<Action>::empty()));
    assert(r3 == (s3.transition(Event::Released).0, seq![s3.transition(Event::Released).1] + Seq::<Action>::empty()));
    if n == 0 {
        assert(creates =~= Seq::<Event>::empty());
        assert(unlinks =~= Seq::<Event>::empty());
        assert(s1 == s0);
        assert(s3 == s2);
        assert(seq![a0] + run(s0, es).1 =~= cycle_actions(n as nat));
    } else {
        lemma_creating_run(s0, n as nat);
        assert(s1.phase == Phase::Waiting && s1.created == n && s1.unlinked == 0);
        assert(s2.phase == Phase::Unlinking);
        lemma_unlinking_run(s2, n as nat);
        let c = Seq::new((n - 1) as nat, |i: int| Action::Create((0 + 1 + i) as usize));
        let u = Seq::new((n - 1) as nat, |i: int| Action::Unlink((0 + 1 + i) as usize));
        assert(seq![a0] + run(s0, es).1 =~= seq![a0] + (c.push(Action::Wait) + (seq![Action::Unlink(0)]
            + (u.push(Action::ReleaseAll) + seq![Action::Exit]))));
        assert(seq![a0] + run(s0, es).1 =~= cycle_actions(n as nat));
    }
}

} // verus!
