//! Admission of pulls: how many run at once, and that none runs twice.
//!
//! A pull is named by its file and its content hash. While one is in flight, running or queued,
//! another submission of the same content is dropped.

use vstd::prelude::*;

use crate::ids::FileId;

verus! {

/// What names a pull.
#[derive(Debug)]
pub struct PullKey {
    pub file_id: FileId,
    pub content_hash: String,
}

/// The model of a pull's name.
pub struct PullKeyView {
    pub file_id: FileId,
    pub content_hash: Seq<char>,
}

impl View for PullKey {
    type V = PullKeyView;

    open spec fn view(&self) -> PullKeyView {
        PullKeyView { file_id: self.file_id, content_hash: self.content_hash@ }
    }
}

impl Clone for PullKey {
    fn clone(&self) -> (r: PullKey)
        ensures
            r == *self,
    {
        PullKey { file_id: self.file_id, content_hash: self.content_hash.clone() }
    }
}

/// The models of some pulls.
pub open spec fn pull_views(pulls: Seq<PullKey>) -> Seq<PullKeyView> {
    pulls.map_values(|pull: PullKey| pull@)
}

/// What became of a submission.
#[derive(Debug, Clone, Copy, PartialEq, Eq, Structural)]
pub enum Admission {
    /// The pull runs now.
    Started,
    /// The pull runs once a slot is free.
    Queued,
    /// The same content is in flight already.
    Dropped,
}

/// What every pull of the device goes through.
pub struct PullScheduler {
    capacity: usize,
    running: Vec<PullKey>,
    queued: Vec<PullKey>,
}

/// The model of the scheduler.
#[verifier::ext_equal]
pub struct SchedulerView {
    pub capacity: nat,
    /// The pulls that run.
    pub running: Seq<PullKeyView>,
    /// The pulls that wait for a slot, first come first.
    pub queued: Seq<PullKeyView>,
}

impl SchedulerView {
    /// The pull is in flight: it runs or waits.
    pub open spec fn in_flight(self, pull: PullKeyView) -> bool {
        self.running.contains(pull) || self.queued.contains(pull)
    }

    /// What becomes of a submission.
    pub open spec fn admission(self, pull: PullKeyView) -> Admission {
        if self.in_flight(pull) {
            Admission::Dropped
        } else if self.running.len() < self.capacity {
            Admission::Started
        } else {
            Admission::Queued
        }
    }

    /// The scheduler after a submission.
    pub open spec fn submitted(self, pull: PullKeyView) -> SchedulerView {
        match self.admission(pull) {
            Admission::Dropped => self,
            Admission::Started => SchedulerView { running: self.running.push(pull), ..self },
            Admission::Queued => SchedulerView { queued: self.queued.push(pull), ..self },
        }
    }

    /// The scheduler after a running pull has ended: its slot goes to the first that waits.
    pub open spec fn completed(self, pull: PullKeyView) -> SchedulerView {
        if !self.running.contains(pull) {
            self
        } else {
            let rest = self.running.remove(self.running.index_of(pull));
            if self.queued.len() > 0 {
                SchedulerView {
                    running: rest.push(self.queued[0]),
                    queued: self.queued.skip(1),
                    ..self
                }
            } else {
                SchedulerView { running: rest, ..self }
            }
        }
    }

    /// No more pulls run than there are slots, no pull is in flight twice, and no slot is free
    /// while a pull waits.
    pub open spec fn wf(self) -> bool {
        &&& self.capacity > 0
        &&& self.running.len() <= self.capacity
        &&& self.queued.len() > 0 ==> self.running.len() == self.capacity
        &&& self.running.no_duplicates()
        &&& self.queued.no_duplicates()
        &&& forall|pull: PullKeyView|
            !(#[trigger] self.running.contains(pull) && self.queued.contains(pull))
    }
}

impl View for PullScheduler {
    type V = SchedulerView;

    closed spec fn view(&self) -> SchedulerView {
        SchedulerView {
            capacity: self.capacity as nat,
            running: pull_views(self.running@),
            queued: pull_views(self.queued@),
        }
    }
}

/// A submission keeps the scheduler valid.
pub proof fn law_submission_keeps_the_scheduler(scheduler: SchedulerView, pull: PullKeyView)
    requires
        scheduler.wf(),
    ensures
        scheduler.submitted(pull).wf(),
        scheduler.submitted(pull).in_flight(pull),
        scheduler.submitted(pull).running.len() <= scheduler.capacity,
{
    let after = scheduler.submitted(pull);
    match scheduler.admission(pull) {
        Admission::Started => {
            assert(after.running[scheduler.running.len() as int] == pull);
            assert forall|other: PullKeyView|
                !(#[trigger] after.running.contains(other) && after.queued.contains(other)) by {
                if after.running.contains(other) && other != pull {
                    let k = after.running.index_of(other);
                    assert(scheduler.running[k] == other);
                    assert(scheduler.running.contains(other));
                }
            }
        },
        Admission::Queued => {
            assert(after.queued[scheduler.queued.len() as int] == pull);
            assert forall|other: PullKeyView|
                !(#[trigger] after.running.contains(other) && after.queued.contains(other)) by {
                if after.queued.contains(other) && other != pull {
                    let k = after.queued.index_of(other);
                    assert(scheduler.queued[k] == other);
                    assert(scheduler.queued.contains(other));
                }
            }
        },
        Admission::Dropped => {},
    }
}

/// The end of a pull keeps the scheduler valid, and the same content may be submitted again.
pub proof fn law_completion_keeps_the_scheduler(scheduler: SchedulerView, pull: PullKeyView)
    requires
        scheduler.wf(),
        scheduler.running.contains(pull),
    ensures
        scheduler.completed(pull).wf(),
        !scheduler.completed(pull).in_flight(pull),
        scheduler.completed(pull).admission(pull) != Admission::Dropped,
        scheduler.queued.len() > 0 ==> scheduler.completed(pull).running.contains(
            scheduler.queued[0],
        ) && scheduler.completed(pull).queued == scheduler.queued.skip(1),
{
    let i = scheduler.running.index_of(pull);
    let rest = scheduler.running.remove(i);
    let after = scheduler.completed(pull);
    assert forall|j: int, k: int| 0 <= j < k < rest.len() implies rest[j] != rest[k] by {
        let a = if j < i {
            j
        } else {
            j + 1
        };
        let b = if k < i {
            k
        } else {
            k + 1
        };
        assert(rest[j] == scheduler.running[a]);
        assert(rest[k] == scheduler.running[b]);
    }
    assert forall|other: PullKeyView| #[trigger] rest.contains(other) implies scheduler.running.contains(
        other,
    ) && other != pull by {
        let k = rest.index_of(other);
        if k < i {
            assert(scheduler.running[k] == other);
        } else {
            assert(scheduler.running[k + 1] == other);
        }
    }
    if scheduler.queued.len() > 0 {
        let first = scheduler.queued[0];
        assert(scheduler.queued.contains(first));
        assert(after.running[rest.len() as int] == first);
        assert forall|other: PullKeyView| #[trigger]
            scheduler.queued.skip(1).contains(other) implies scheduler.queued.contains(other) && other
            != first by {
            let k = scheduler.queued.skip(1).index_of(other);
            assert(scheduler.queued[k + 1] == other);
        }
        assert forall|other: PullKeyView| #[trigger] after.running.contains(other) implies (
        rest.contains(other) || other == first) by {
            let k = after.running.index_of(other);
            if k < rest.len() {
                assert(rest[k] == other);
            }
        }
        assert forall|j: int, k: int|
            0 <= j < after.running.len() && 0 <= k < after.running.len() && j
                != k implies after.running[j] != after.running[k] by {
            if j < rest.len() {
                assert(rest.contains(rest[j]));
            }
            if k < rest.len() {
                assert(rest.contains(rest[k]));
            }
        }
        assert(scheduler.running.contains(pull));
        assert(pull != first);
    }
}

/// What happens to a scheduler.
pub enum PullEvent {
    /// A pull is submitted.
    Submit(PullKeyView),
    /// A pull has ended.
    Complete(PullKeyView),
}

impl SchedulerView {
    /// The scheduler with this many slots before anything was submitted.
    pub open spec fn fresh(capacity: nat) -> SchedulerView {
        SchedulerView { capacity, running: Seq::empty(), queued: Seq::empty() }
    }

    /// The scheduler after some events, one after the other.
    pub open spec fn after(self, events: Seq<PullEvent>) -> SchedulerView
        decreases events.len(),
    {
        if events.len() == 0 {
            self
        } else {
            let before = self.after(events.drop_last());
            match events.last() {
                PullEvent::Submit(pull) => before.submitted(pull),
                PullEvent::Complete(pull) => before.completed(pull),
            }
        }
    }

    /// The submissions among some events that were not dropped, in order.
    pub open spec fn admitted(self, events: Seq<PullEvent>) -> Seq<PullKeyView>
        decreases events.len(),
    {
        if events.len() == 0 {
            Seq::empty()
        } else {
            let earlier = events.drop_last();
            match events.last() {
                PullEvent::Submit(pull) if self.after(earlier).admission(pull)
                    != Admission::Dropped => self.admitted(earlier).push(pull),
                _ => self.admitted(earlier),
            }
        }
    }

    /// The pulls that some events started, in order: those that found a free slot, and those that
    /// got the slot of a pull that ended.
    pub open spec fn started(self, events: Seq<PullEvent>) -> Seq<PullKeyView>
        decreases events.len(),
    {
        if events.len() == 0 {
            Seq::empty()
        } else {
            let earlier = events.drop_last();
            let before = self.after(earlier);
            match events.last() {
                PullEvent::Submit(pull) if before.admission(pull) == Admission::Started =>
                    self.started(earlier).push(pull),
                PullEvent::Complete(pull) if before.running.contains(pull) && before.queued.len()
                    > 0 => self.started(earlier).push(before.queued[0]),
                _ => self.started(earlier),
            }
        }
    }
}

/// Over any run of submissions and ends of pulls, no more pulls run than there are slots, and the
/// pulls that were admitted are started in the order of their submission, each once: those not
/// started yet wait. Once no pull runs any more, every admitted pull has been started.
pub proof fn law_admitted_pulls_start_once_and_in_order(capacity: nat, events: Seq<PullEvent>)
    requires
        capacity > 0,
    ensures
        ({
            let fresh = SchedulerView::fresh(capacity);
            let end = fresh.after(events);
            &&& end.wf()
            &&& end.capacity == capacity
            &&& end.running.len() <= capacity
            &&& fresh.started(events) + end.queued == fresh.admitted(events)
            &&& end.running.len() == 0 ==> fresh.started(events) == fresh.admitted(events)
        }),
    decreases events.len(),
{
    let fresh = SchedulerView::fresh(capacity);
    if events.len() == 0 {
        assert(fresh.started(events) + fresh.queued =~= fresh.admitted(events));
    } else {
        let earlier = events.drop_last();
        law_admitted_pulls_start_once_and_in_order(capacity, earlier);
        let before = fresh.after(earlier);
        let end = fresh.after(events);
        match events.last() {
            PullEvent::Submit(pull) => {
                law_submission_keeps_the_scheduler(before, pull);
            },
            PullEvent::Complete(pull) => {
                if before.running.contains(pull) {
                    law_completion_keeps_the_scheduler(before, pull);
                }
            },
        }
        assert(fresh.started(events) + end.queued =~= fresh.admitted(events));
        if end.running.len() == 0 {
            assert(fresh.started(events) =~= fresh.started(events) + end.queued);
        }
    }
}

/// The ends of every pull that runs, and of every pull that then gets a slot, until none is left.
pub open spec fn ends_of_all(scheduler: SchedulerView) -> Seq<PullEvent>
    decreases scheduler.running.len() + scheduler.queued.len(),
{
    if scheduler.running.len() == 0 {
        Seq::empty()
    } else {
        let first = scheduler.running[0];
        seq![PullEvent::Complete(first)] + ends_of_all(scheduler.completed(first))
    }
}

proof fn lemma_after_first(scheduler: SchedulerView, event: PullEvent, rest: Seq<PullEvent>)
    ensures
        scheduler.after(seq![event] + rest) == match event {
            PullEvent::Submit(pull) => scheduler.submitted(pull),
            PullEvent::Complete(pull) => scheduler.completed(pull),
        }.after(rest),
    decreases rest.len(),
{
    let events = seq![event] + rest;
    if rest.len() == 0 {
        assert(events.drop_last() =~= Seq::empty());
        assert(scheduler.after(Seq::empty()) == scheduler);
    } else {
        lemma_after_first(scheduler, event, rest.drop_last());
        assert(events.drop_last() =~= seq![event] + rest.drop_last());
        assert(events.last() == rest.last());
    }
}

/// If every pull that starts also ends, nothing stays queued: the ends of those that run, and of
/// those that get their slots, leave the scheduler empty.
pub proof fn law_ends_drain_the_scheduler(scheduler: SchedulerView)
    requires
        scheduler.wf(),
    ensures
        scheduler.after(ends_of_all(scheduler)).running.len() == 0,
        scheduler.after(ends_of_all(scheduler)).queued.len() == 0,
    decreases scheduler.running.len() + scheduler.queued.len(),
{
    if scheduler.running.len() > 0 {
        let first = scheduler.running[0];
        assert(scheduler.running.contains(first));
        law_completion_keeps_the_scheduler(scheduler, first);
        let next = scheduler.completed(first);
        law_ends_drain_the_scheduler(next);
        lemma_after_first(scheduler, PullEvent::Complete(first), ends_of_all(next));
    }
}

/// Whether a pull is among some.
fn lists_pull(pulls: &Vec<PullKey>, pull: &PullKey) -> (r: Option<usize>)
    ensures
        match r {
            Some(i) => i < pulls@.len() && pull_views(pulls@)[i as int] == pull@ && forall|j: int|
                0 <= j < i ==> pull_views(pulls@)[j] != pull@,
            None => !pull_views(pulls@).contains(pull@),
        },
{
    let mut i: usize = 0;
    while i < pulls.len()
        invariant
            i <= pulls.len(),
            forall|j: int| 0 <= j < i ==> pull_views(pulls@)[j] != pull@,
        decreases pulls.len() - i,
    {
        if pulls[i].file_id == pull.file_id && pulls[i].content_hash == pull.content_hash {
            assert(pull_views(pulls@)[i as int] == pull@);
            return Some(i);
        }
        i = i + 1;
    }
    None
}

impl PullScheduler {
    /// The scheduler is valid.
    pub open spec fn wf(&self) -> bool {
        self@.wf()
    }

    /// A scheduler that lets `max_concurrent` pulls run at once, and at least one.
    pub fn new(max_concurrent: usize) -> (r: PullScheduler)
        ensures
            r.wf(),
            r@ == (SchedulerView {
                capacity: if max_concurrent == 0 {
                    1
                } else {
                    max_concurrent as nat
                },
                running: Seq::empty(),
                queued: Seq::empty(),
            }),
    {
        let capacity: usize = if max_concurrent == 0 {
            1
        } else {
            max_concurrent
        };
        let r = PullScheduler { capacity, running: Vec::new(), queued: Vec::new() };
        assert(r@.running =~= Seq::empty());
        assert(r@.queued =~= Seq::empty());
        r
    }

    /// Submits a pull: it runs if a slot is free, waits if none is, and is dropped if the same
    /// content is in flight.
    pub fn submit(&mut self, file_id: FileId, content_hash: &str) -> (r: Admission)
        requires
            old(self).wf(),
        ensures
            final(self).wf(),
            r == old(self)@.admission(PullKeyView { file_id, content_hash: content_hash@ }),
            final(self)@ == old(self)@.submitted(
                PullKeyView { file_id, content_hash: content_hash@ },
            ),
    {
        let pull = PullKey { file_id, content_hash: content_hash.to_owned() };
        let ghost before = self@;
        let ghost view = pull@;
        proof {
            law_submission_keeps_the_scheduler(before, view);
        }
        if let Some(i) = lists_pull(&self.running, &pull) {
            assert(before.running[i as int] == view);
            return Admission::Dropped;
        }
        if let Some(i) = lists_pull(&self.queued, &pull) {
            assert(before.queued[i as int] == view);
            return Admission::Dropped;
        }
        if self.running.len() < self.capacity {
            self.running.push(pull);
            assert(self@.running =~= before.running.push(view));
            assert(self@ =~= before.submitted(view));
            Admission::Started
        } else {
            self.queued.push(pull);
            assert(self@.queued =~= before.queued.push(view));
            assert(self@ =~= before.submitted(view));
            Admission::Queued
        }
    }

    /// Notes that a running pull has ended, and hands out the pull that now gets its slot. The
    /// end of a pull that does not run changes nothing.
    pub fn complete(&mut self, file_id: FileId, content_hash: &str) -> (r: Option<PullKey>)
        requires
            old(self).wf(),
        ensures
            final(self).wf(),
            final(self)@ == old(self)@.completed(
                PullKeyView { file_id, content_hash: content_hash@ },
            ),
            match r {
                Some(next) => old(self)@.running.contains(
                    PullKeyView { file_id, content_hash: content_hash@ },
                ) && old(self)@.queued.len() > 0 && next@ == old(self)@.queued[0],
                None => !old(self)@.running.contains(
                    PullKeyView { file_id, content_hash: content_hash@ },
                ) || old(self)@.queued.len() == 0,
            },
    {
        let pull = PullKey { file_id, content_hash: content_hash.to_owned() };
        let ghost before = self@;
        let ghost view = pull@;
        match lists_pull(&self.running, &pull) {
            Some(i) => {
                proof {
                    assert(before.running[i as int] == view);
                    assert(before.running.contains(view));
                    let k = before.running.index_of(view);
                    assert(k == i);
                    law_completion_keeps_the_scheduler(before, view);
                }
                self.running.remove(i);
                assert(pull_views(self.running@) =~= before.running.remove(i as int));
                if self.queued.len() > 0 {
                    let ghost rest = pull_views(self.running@);
                    let next = self.queued.remove(0);
                    assert(next@ == before.queued[0]);
                    self.running.push(next.clone());
                    assert(self@.running =~= rest.push(before.queued[0]));
                    assert(self@.queued =~= before.queued.skip(1));
                    assert(self@ =~= before.completed(view));
                    Some(next)
                } else {
                    assert(before.queued.len() == 0);
                    assert(self@ =~= before.completed(view));
                    None
                }
            },
            None => None,
        }
    }

    /// How many slots are free.
    pub fn available_permits(&self) -> (r: usize)
        requires
            self.wf(),
        ensures
            r == self@.capacity - self@.running.len(),
    {
        self.capacity - self.running.len()
    }
}

} // verus!
