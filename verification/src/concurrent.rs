//! The bookkeeping of a loader that runs fetches side by side, at most a
//! fixed number of them at a time, and gathers what they bring.
//!
//! The loader itself neither starts nor awaits a task. It is told of each
//! event (a task is to be submitted, a task has finished, a result has been
//! handed over) and says what is to happen next.

use crate::model::{LoadedDataView, SecurityGroupsView};
use crate::security::{loaded_views, LoadedData, SecurityGroups};
use vstd::prelude::*;

verus! {

/// The most tasks that may run at a time.
pub const MAX_IN_FLIGHT: usize = 8;

/// The state of a loader.
pub struct ConcurrentLoaderView {
    /// How many tasks have been admitted and have not finished.
    pub in_flight: nat,
    /// The results handed over so far, oldest first.
    pub results: Seq<LoadedDataView>,
    /// How many tasks have ever been admitted.
    pub submitted: nat,
}

impl ConcurrentLoaderView {
    /// The loader to which nothing has been submitted.
    pub open spec fn fresh() -> ConcurrentLoaderView {
        ConcurrentLoaderView { in_flight: 0, results: Seq::empty(), submitted: 0 }
    }

    /// Every task that runs, and every task whose result was handed over, has
    /// been submitted.
    pub open spec fn well_formed(self) -> bool {
        self.in_flight + self.results.len() <= self.submitted
    }

    /// How many tasks have finished without their result being handed over.
    pub open spec fn finished_unseen(self) -> int {
        self.submitted - self.results.len() - self.in_flight
    }

    /// Whether as many tasks run as may run at a time.
    pub open spec fn is_full(self) -> bool {
        self.in_flight >= MAX_IN_FLIGHT
    }

    /// Whether no more tasks run than may run at a time.
    pub open spec fn within_cap(self) -> bool {
        self.in_flight <= MAX_IN_FLIGHT
    }

    /// The state after one more task was admitted.
    pub open spec fn start(self) -> ConcurrentLoaderView {
        ConcurrentLoaderView {
            in_flight: self.in_flight + 1,
            submitted: self.submitted + 1,
            ..self
        }
    }

    /// The state after `count` of the running tasks have finished.
    pub open spec fn finish(self, count: nat) -> ConcurrentLoaderView {
        ConcurrentLoaderView { in_flight: (self.in_flight - count) as nat, ..self }
    }

    /// The state after the result `item` was handed over.
    pub open spec fn hand_over(self, item: LoadedDataView) -> ConcurrentLoaderView {
        ConcurrentLoaderView { results: self.results.push(item), ..self }
    }

    /// The state after a whole submission. Below the cap the task is admitted
    /// at once. At the cap the oldest pending result is awaited first;
    /// meanwhile `finished` of the running tasks finish, `drained` is handed
    /// over, and then the task is admitted.
    pub open spec fn submit(self, finished: nat, drained: LoadedDataView) -> ConcurrentLoaderView {
        if self.is_full() {
            self.finish(finished).hand_over(drained).start()
        } else {
            self.start()
        }
    }
}

/// What is to happen with a task that is to be submitted.
#[derive(Debug, Clone, Copy, PartialEq, Eq, Structural)]
pub enum Admission {
    /// The task was admitted: start it.
    Admitted,
    /// As many tasks run as may: await the oldest pending result first, then
    /// hand it over with the task.
    DrainFirst,
}

/// The bookkeeping of a loader: how many tasks run, what they have brought so
/// far, and how many have ever been submitted.
#[derive(Debug)]
pub struct ConcurrentLoader {
    counter: usize,
    results: Vec<LoadedData>,
    expected_results: usize,
}

impl View for ConcurrentLoader {
    type V = ConcurrentLoaderView;

    closed spec fn view(&self) -> ConcurrentLoaderView {
        ConcurrentLoaderView {
            in_flight: self.counter as nat,
            results: loaded_views(self.results@),
            submitted: self.expected_results as nat,
        }
    }
}

impl ConcurrentLoader {
    #[verifier::type_invariant]
    spec fn accounted(self) -> bool {
        self.counter + self.results@.len() <= self.expected_results
    }

    /// The loader to which nothing has been submitted.
    pub fn new() -> (loader: Self)
        ensures
            loader@ == ConcurrentLoaderView::fresh(),
    {
        let loader = ConcurrentLoader { counter: 0, results: Vec::new(), expected_results: 0 };
        assert(loaded_views(loader.results@) =~= Seq::<LoadedDataView>::empty());
        loader
    }

    /// How many tasks have been admitted and have not finished.
    pub fn in_flight(&self) -> (count: usize)
        ensures
            count == self@.in_flight,
            self@.well_formed(),
    {
        proof {
            use_type_invariant(self);
        }
        self.counter
    }

    /// How many tasks have ever been admitted.
    pub fn submitted(&self) -> (count: usize)
        ensures
            count == self@.submitted,
            self@.well_formed(),
    {
        proof {
            use_type_invariant(self);
        }
        self.expected_results
    }

    /// How many results have been handed over.
    pub fn drained(&self) -> (count: usize)
        ensures
            count == self@.results.len(),
            self@.well_formed(),
    {
        proof {
            use_type_invariant(self);
        }
        self.results.len()
    }

    /// Whether as many tasks run as may run at a time.
    pub fn is_full(&self) -> (full: bool)
        ensures
            full == self@.is_full(),
    {
        self.counter >= MAX_IN_FLIGHT
    }

    /// A task is to be submitted. Below the cap it is admitted: it counts as
    /// running and as submitted. At the cap nothing changes, and the caller
    /// is to await the oldest pending result and come back with it to
    /// `spawn_after_drain`.
    pub fn spawn_concurrently(&mut self) -> (admission: Admission)
        requires
            old(self)@.submitted < usize::MAX,
        ensures
            admission == if old(self)@.is_full() {
                Admission::DrainFirst
            } else {
                Admission::Admitted
            },
            final(self)@ == if old(self)@.is_full() {
                old(self)@
            } else {
                old(self)@.start()
            },
            final(self)@.well_formed(),
            !old(self)@.is_full() ==> final(self)@.within_cap(),
    {
        proof {
            use_type_invariant(&*self);
        }
        if self.counter >= MAX_IN_FLIGHT {
            Admission::DrainFirst
        } else {
            self.expected_results = self.expected_results + 1;
            self.counter = self.counter + 1;
            Admission::Admitted
        }
    }

    /// The oldest pending result, `item`, has been awaited for a task that
    /// found the loader full. The result is kept, and the task is admitted
    /// whatever number of tasks still run.
    pub fn spawn_after_drain(&mut self, item: LoadedData)
        requires
            old(self)@.submitted < usize::MAX,
            old(self)@.finished_unseen() >= 1,
        ensures
            final(self)@ == old(self)@.hand_over(item@).start(),
            final(self)@.well_formed(),
    {
        self.hand_over(item);
        proof {
            use_type_invariant(&*self);
        }
        self.expected_results = self.expected_results + 1;
        self.counter = self.counter + 1;
    }

    /// One of the running tasks has finished, with or without data.
    pub fn task_completed(&mut self)
        requires
            old(self)@.in_flight >= 1,
        ensures
            final(self)@ == old(self)@.finish(1),
            final(self)@.well_formed(),
    {
        proof {
            use_type_invariant(&*self);
        }
        self.counter = self.counter - 1;
    }

    /// The result `item` of a task that has finished is handed over.
    pub fn hand_over(&mut self, item: LoadedData)
        requires
            old(self)@.finished_unseen() >= 1,
        ensures
            final(self)@ == old(self)@.hand_over(item@),
            final(self)@.well_formed(),
    {
        proof {
            use_type_invariant(&*self);
        }
        let ghost before = loaded_views(self.results@);
        let ghost model = item@;
        let mut results: Vec<LoadedData> = Vec::new();
        std::mem::swap(&mut results, &mut self.results);
        results.push(item);
        proof {
            assert(loaded_views(results@) =~= before.push(model));
        }
        self.results = results;
    }

    /// Ends the loading: `remaining` are the results that had not been handed
    /// over, in the order in which their tasks finished. All results, those
    /// handed over before first, are merged one after the other into one
    /// aggregate. Every task must have finished and every result must be
    /// here.
    pub fn collect(self, remaining: Vec<LoadedData>) -> (groups: SecurityGroups)
        requires
            self@.in_flight == 0,
            self@.results.len() + remaining@.len() == self@.submitted,
        ensures
            groups@ == SecurityGroupsView::collected(self@.results + loaded_views(remaining@)),
    {
        let ghost all = self@.results + loaded_views(remaining@);
        let ghost step = |all: SecurityGroupsView, item: LoadedDataView|
            all.merge(SecurityGroupsView::from_loaded(item));
        let mut groups = SecurityGroups::new();
        let mut i: usize = 0;
        while i < self.results.len()
            invariant
                i <= self.results.len(),
                all == loaded_views(self.results@) + loaded_views(remaining@),
                step == |all: SecurityGroupsView, item: LoadedDataView|
                    all.merge(SecurityGroupsView::from_loaded(item)),
                groups@ == all.take(i as int).fold_left(SecurityGroupsView::empty(), step),
            decreases self.results.len() - i,
        {
            let part = SecurityGroups::from_loaded(&self.results[i]);
            groups.merge(&part);
            proof {
                assert(all[i as int] == self.results@[i as int]@);
                assert(all.take(i + 1).drop_last() =~= all.take(i as int));
            }
            i += 1;
        }
        let ghost first = self.results@.len();
        let mut j: usize = 0;
        while j < remaining.len()
            invariant
                j <= remaining.len(),
                first == self.results@.len(),
                all == loaded_views(self.results@) + loaded_views(remaining@),
                step == |all: SecurityGroupsView, item: LoadedDataView|
                    all.merge(SecurityGroupsView::from_loaded(item)),
                groups@ == all.take(first + j).fold_left(SecurityGroupsView::empty(), step),
            decreases remaining.len() - j,
        {
            let part = SecurityGroups::from_loaded(&remaining[j]);
            groups.merge(&part);
            proof {
                assert(all[first + j] == remaining@[j as int]@);
                assert(all.take(first + j + 1).drop_last() =~= all.take(first + j));
            }
            j += 1;
        }
        proof {
            assert(all.take(first + j) =~= all);
        }
        groups
    }
}

impl Default for ConcurrentLoader {
    fn default() -> (loader: Self)
        ensures
            loader@ == ConcurrentLoaderView::fresh(),
    {
        ConcurrentLoader::new()
    }
}

/// What happens around one submission: how many running tasks finish while
/// the oldest pending result is awaited, and which result that is. Both
/// matter only where the loader is full.
pub struct SubmissionView {
    pub finished: nat,
    pub drained: LoadedDataView,
}

impl ConcurrentLoaderView {
    /// The state after the submissions `steps`, one after the other.
    pub open spec fn submit_all(self, steps: Seq<SubmissionView>) -> ConcurrentLoaderView
        decreases steps.len(),
    {
        if steps.len() == 0 {
            self
        } else {
            self.submit_all(steps.drop_last()).submit(steps.last().finished, steps.last().drained)
        }
    }

    /// Whether every one of the submissions `steps` finds a loader of which
    /// no more tasks finish than run, and of which, where it is full, at
    /// least one task finishes while the oldest pending result is awaited.
    pub open spec fn drains_in_flight(self, steps: Seq<SubmissionView>) -> bool
        decreases steps.len(),
    {
        if steps.len() == 0 {
            true
        } else {
            let before = self.submit_all(steps.drop_last());
            &&& self.drains_in_flight(steps.drop_last())
            &&& steps.last().finished <= before.in_flight
            &&& before.is_full() ==> steps.last().finished >= 1
        }
    }
}

/// However many tasks are submitted to a loader that keeps within the cap,
/// it keeps within the cap after each of them, and counts each of them,
/// provided that every submission that finds the loader full sees a running
/// task finish.
pub proof fn lemma_submissions_within_cap(before: ConcurrentLoaderView, steps: Seq<SubmissionView>)
    requires
        before.well_formed(),
        before.within_cap(),
        before.drains_in_flight(steps),
    ensures
        before.submit_all(steps).well_formed(),
        before.submit_all(steps).within_cap(),
        before.submit_all(steps).submitted == before.submitted + steps.len(),
        forall|count: int|
            0 <= count <= steps.len() ==> (#[trigger] before.submit_all(
                steps.take(count),
            )).within_cap(),
    decreases steps.len(),
{
    if steps.len() > 0 {
        let earlier = steps.drop_last();
        lemma_submissions_within_cap(before, earlier);
        lemma_submission_within_cap(
            before.submit_all(earlier),
            steps.last().finished,
            steps.last().drained,
        );
        assert forall|count: int| 0 <= count <= steps.len() implies (#[trigger] before.submit_all(
            steps.take(count),
        )).within_cap() by {
            if count < steps.len() {
                assert(steps.take(count) =~= earlier.take(count));
            } else {
                assert(steps.take(count) =~= steps);
            }
        }
    } else {
        assert forall|count: int| 0 <= count <= steps.len() implies (#[trigger] before.submit_all(
            steps.take(count),
        )).within_cap() by {
            assert(steps.take(count) =~= steps);
        }
    }
}

/// A submission never leaves more tasks running than may run at a time,
/// provided that no more ran before and that, where the loader was full, at
/// least one running task finished while the oldest pending result was
/// awaited.
pub proof fn lemma_submission_within_cap(
    before: ConcurrentLoaderView,
    finished: nat,
    drained: LoadedDataView,
)
    requires
        before.well_formed(),
        before.within_cap(),
        finished <= before.in_flight,
        before.is_full() ==> finished >= 1,
    ensures
        before.submit(finished, drained).within_cap(),
        before.submit(finished, drained).submitted == before.submitted + 1,
        before.is_full() ==> before.finish(finished).finished_unseen() >= 1 && before.submit(
            finished,
            drained,
        ).well_formed(),
        !before.is_full() ==> before.submit(finished, drained).well_formed(),
{
}

/// A submission at the cap during which no running task finishes, because
/// the awaited result had been ready before, leaves one task too many
/// running.
pub proof fn lemma_submission_over_cap(before: ConcurrentLoaderView, drained: LoadedDataView)
    requires
        before.is_full(),
    ensures
        !before.submit(0, drained).within_cap(),
{
}

} // verus!
