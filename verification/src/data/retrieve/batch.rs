//! Storing the pages of a whole layer with a bound on the fetches in flight.
//!
//! A `PermitPool` says when a task may start; a `BatchTally` counts the tasks
//! that ended and keeps the first failure; a `BatchSchedule` joins the two.
//! The caller asks the schedule what to do next: it starts the task that the
//! schedule names, or waits for a task to end and reports how it ended, until
//! the schedule says to stop.

use vstd::prelude::*;
use crate::failure::Failure;

verus! {

/// The number of permits of a pool when nothing else is asked for.
pub const DEFAULT_PERMITS: u32 = 20;

/// How the task for one page of a stored batch ended.
#[derive(Debug)]
pub enum ItemOutcome {
    /// The page is on disk: it was there already, or it was fetched and stored.
    Completed,
    /// The task reports a failure of its fetch or of its write.
    Failed { neuron_index: u32, failure: Failure },
    /// The task crashed.
    Panicked,
    /// The task was cancelled before it could end.
    Cancelled,
}

/// How far a batch has come.
#[derive(Clone, Copy, Debug, PartialEq, Eq, Structural)]
pub struct Progress {
    pub completed: u32,
    pub total: u32,
}

/// The failure that an outcome stands for, if it is one. A crash is a fatal
/// fault, and so is a cancellation that nobody asked for.
pub open spec fn item_failure_of(outcome: ItemOutcome) -> Option<Failure> {
    match outcome {
        ItemOutcome::Completed => None,
        ItemOutcome::Failed { failure, .. } => Some(failure),
        ItemOutcome::Panicked => Some(Failure::FatalInternalFault),
        ItemOutcome::Cancelled => Some(Failure::FatalInternalFault),
    }
}

/// The failure of the earliest outcome that is one.
pub open spec fn first_item_failure(history: Seq<ItemOutcome>) -> Option<Failure>
    decreases history.len(),
{
    if history.len() == 0 {
        None
    } else {
        match first_item_failure(history.drop_last()) {
            Some(failure) => Some(failure),
            None => item_failure_of(history.last()),
        }
    }
}

/// What a stored batch of `count` pages comes to, given how its tasks ended:
/// the first failure, if there was one; else success, if exactly `count` tasks
/// completed; else a fatal fault.
pub open spec fn batch_result(count: nat, history: Seq<ItemOutcome>) -> Result<(), Failure> {
    match first_item_failure(history) {
        Some(failure) => Err(failure),
        None => if history.len() == count {
            Ok(())
        } else {
            Err(Failure::FatalInternalFault)
        },
    }
}

/// A fixed number of permits, of which each task in flight holds one.
#[derive(Debug)]
pub struct PermitPool {
    capacity: u32,
    in_use: u32,
}

impl PermitPool {
    #[verifier::type_invariant]
    spec fn bounded(self) -> bool {
        self.in_use <= self.capacity
    }

    /// The number of permits that the pool was made with.
    pub closed spec fn capacity(&self) -> nat {
        self.capacity as nat
    }

    /// The number of permits that are out: the number of tasks in flight.
    pub closed spec fn in_flight(&self) -> nat {
        self.in_use as nat
    }

    /// A pool of `capacity` permits, none of them out.
    pub fn new(capacity: u32) -> (pool: Self)
        ensures
            pool.capacity() == capacity,
            pool.in_flight() == 0,
    {
        Self { capacity, in_use: 0 }
    }

    /// Takes a permit if one is free. A task may start only on `true`.
    pub fn try_acquire(&mut self) -> (granted: bool)
        ensures
            final(self).capacity() == old(self).capacity(),
            granted == (old(self).in_flight() < old(self).capacity()),
            final(self).in_flight() == old(self).in_flight() + if granted {
                1nat
            } else {
                0nat
            },
            final(self).in_flight() <= final(self).capacity(),
    {
        proof {
            use_type_invariant(&*self);
        }
        if self.in_use < self.capacity {
            self.in_use = self.in_use + 1;
            true
        } else {
            false
        }
    }

    /// Gives a permit back when a task has ended, however it ended. Answers
    /// `false`, and changes nothing, if no permit was out.
    pub fn release(&mut self) -> (returned: bool)
        ensures
            final(self).capacity() == old(self).capacity(),
            returned == (old(self).in_flight() > 0),
            final(self).in_flight() == old(self).in_flight() - if returned {
                1int
            } else {
                0int
            },
            final(self).in_flight() <= final(self).capacity(),
    {
        proof {
            use_type_invariant(&*self);
        }
        if self.in_use > 0 {
            self.in_use = self.in_use - 1;
            true
        } else {
            false
        }
    }

    /// The number of tasks in flight, which never exceeds the capacity.
    pub fn tasks_in_flight(&self) -> (n: u32)
        ensures
            n == self.in_flight(),
            n <= self.capacity(),
    {
        proof {
            use_type_invariant(self);
        }
        self.in_use
    }
}

/// The count of the tasks of a stored batch that have ended, and the first
/// failure among them.
pub struct BatchTally {
    total: u32,
    ended: u64,
    failure: Option<Failure>,
    history: Ghost<Seq<ItemOutcome>>,
}

impl BatchTally {
    /// The number of pages that the batch is to store.
    pub closed spec fn expected(&self) -> nat {
        self.total as nat
    }

    /// The outcomes recorded so far, in the order in which they were recorded.
    pub closed spec fn history(&self) -> Seq<ItemOutcome> {
        self.history@
    }

    /// What the tally holds agrees with its history.
    pub closed spec fn wf(&self) -> bool {
        &&& self.failure == first_item_failure(self.history@)
        &&& self.ended == if self.history@.len() < u64::MAX {
            self.history@.len()
        } else {
            u64::MAX as nat
        }
    }

    /// Whether a failure was recorded.
    pub fn failed(&self) -> (failed: bool)
        requires
            self.wf(),
        ensures
            failed == (first_item_failure(self.history()) is Some),
    {
        self.failure.is_some()
    }

    /// The number of pages that the batch is to store.
    pub fn total(&self) -> (total: u32)
        ensures
            total == self.expected(),
    {
        self.total
    }

    /// A tally for a batch of `num_neurons` pages, with nothing recorded.
    pub fn new(num_neurons: u32) -> (tally: Self)
        ensures
            tally.wf(),
            tally.expected() == num_neurons,
            tally.history() == Seq::<ItemOutcome>::empty(),
    {
        Self { total: num_neurons, ended: 0, failure: None, history: Ghost(Seq::empty()) }
    }

    /// Records how one task ended. Answers how far the batch has come while it
    /// is alive, and `None` from the first failure on, at which point the caller
    /// stops starting tasks and cancels those that are still running.
    pub fn record(&mut self, outcome: ItemOutcome) -> (progress: Option<Progress>)
        requires
            old(self).wf(),
        ensures
            final(self).wf(),
            final(self).expected() == old(self).expected(),
            final(self).history() == old(self).history().push(outcome),
            match progress {
                Some(p) => first_item_failure(final(self).history()) is None && p.total
                    == final(self).expected() && p.completed == if final(self).history().len()
                    < u32::MAX {
                    final(self).history().len()
                } else {
                    u32::MAX as nat
                },
                None => first_item_failure(final(self).history()) is Some,
            },
    {
        let ghost before = self.history@;
        let ghost after = before.push(outcome);
        proof {
            assert(after.drop_last() =~= before);
            assert(after.last() == outcome);
        }
        self.history = Ghost(after);
        if self.ended < u64::MAX {
            self.ended = self.ended + 1;
        }
        if self.failure.is_some() {
            return None;
        }
        match outcome {
            ItemOutcome::Completed => {
                let completed: u32 = if self.ended < u32::MAX as u64 {
                    self.ended as u32
                } else {
                    u32::MAX
                };
                Some(Progress { completed, total: self.total })
            },
            ItemOutcome::Failed { neuron_index, failure } => {
                self.failure = Some(failure);
                None
            },
            ItemOutcome::Panicked => {
                self.failure = Some(Failure::FatalInternalFault);
                None
            },
            ItemOutcome::Cancelled => {
                self.failure = Some(Failure::FatalInternalFault);
                None
            },
        }
    }

    /// Ends the batch, once no task is left to wait for.
    pub fn finish(self) -> (result: Result<(), Failure>)
        requires
            self.wf(),
        ensures
            result == batch_result(self.expected(), self.history()),
    {
        match self.failure {
            Some(failure) => Err(failure),
            None => if self.ended == self.total as u64 {
                Ok(())
            } else {
                Err(Failure::FatalInternalFault)
            },
        }
    }
}

/// What the caller of a `BatchSchedule` does next.
#[derive(Clone, Copy, Debug, PartialEq, Eq, Structural)]
pub enum Step {
    /// Start the task for this neuron: a permit was taken for it.
    Start { neuron_index: u32 },
    /// Wait for a task to end and report how it ended.
    Wait,
    /// Stop: cancel whatever is still running and end the batch.
    Stop,
}

/// The course of a stored batch: which task starts next, how many are in
/// flight, and how those that ended came out.
pub struct BatchSchedule {
    pool: PermitPool,
    tally: BatchTally,
    next_index: u32,
}

impl BatchSchedule {
    /// The number of pages that the batch is to store.
    pub closed spec fn total(&self) -> nat {
        self.tally.expected()
    }

    /// The number of permits of the batch.
    pub closed spec fn permits(&self) -> nat {
        self.pool.capacity()
    }

    /// The number of tasks that were started.
    pub closed spec fn started(&self) -> nat {
        self.next_index as nat
    }

    /// The number of tasks in flight.
    pub closed spec fn in_flight(&self) -> nat {
        self.pool.in_flight()
    }

    /// The outcomes reported so far, in the order in which they were reported.
    pub closed spec fn history(&self) -> Seq<ItemOutcome> {
        self.tally.history()
    }

    /// No more tasks were started than the batch has, and no more are in
    /// flight than there are permits.
    pub closed spec fn wf(&self) -> bool {
        &&& self.tally.wf()
        &&& self.next_index <= self.tally.expected()
        &&& self.pool.in_flight() <= self.pool.capacity()
    }

    /// A batch of `num_neurons` pages of which at most `permits` are fetched at
    /// a time.
    pub fn new(num_neurons: u32, permits: u32) -> (schedule: Self)
        ensures
            schedule.wf(),
            schedule.total() == num_neurons,
            schedule.permits() == permits,
            schedule.started() == 0,
            schedule.in_flight() == 0,
            schedule.history() == Seq::<ItemOutcome>::empty(),
    {
        Self { pool: PermitPool::new(permits), tally: BatchTally::new(num_neurons), next_index: 0 }
    }

    /// Says what to do next. A task starts only while no failure was reported,
    /// a task is left to start and a permit is free; the tasks start in the
    /// order of their neurons. Otherwise the caller waits while tasks are in
    /// flight, and stops when none is.
    pub fn next(&mut self) -> (step: Step)
        requires
            old(self).wf(),
        ensures
            final(self).wf(),
            final(self).total() == old(self).total(),
            final(self).permits() == old(self).permits(),
            final(self).history() == old(self).history(),
            final(self).in_flight() <= final(self).permits(),
            match step {
                Step::Start { neuron_index } => {
                    &&& first_item_failure(old(self).history()) is None
                    &&& neuron_index == old(self).started()
                    &&& old(self).started() < old(self).total()
                    &&& old(self).in_flight() < old(self).permits()
                    &&& final(self).started() == old(self).started() + 1
                    &&& final(self).in_flight() == old(self).in_flight() + 1
                },
                Step::Wait => {
                    &&& first_item_failure(old(self).history()) is None
                    &&& old(self).in_flight() > 0
                    &&& old(self).started() == old(self).total() || old(self).in_flight()
                        == old(self).permits()
                    &&& final(self).started() == old(self).started()
                    &&& final(self).in_flight() == old(self).in_flight()
                },
                Step::Stop => {
                    &&& first_item_failure(old(self).history()) is Some || (old(self).in_flight()
                        == 0 && (old(self).started() == old(self).total() || old(self).permits()
                        == 0))
                    &&& final(self).started() == old(self).started()
                    &&& final(self).in_flight() == old(self).in_flight()
                },
            },
    {
        if self.tally.failed() {
            return Step::Stop;
        }
        if self.next_index < self.tally.total() && self.pool.try_acquire() {
            let neuron_index = self.next_index;
            self.next_index = self.next_index + 1;
            return Step::Start { neuron_index };
        }
        if self.pool.tasks_in_flight() > 0 {
            Step::Wait
        } else {
            Step::Stop
        }
    }

    /// Takes note that a task has ended: its permit is free again, however the
    /// task ended, and its outcome is recorded. Answers how far the batch has
    /// come while it is alive, and `None` from the first failure on.
    pub fn task_ended(&mut self, outcome: ItemOutcome) -> (progress: Option<Progress>)
        requires
            old(self).wf(),
        ensures
            final(self).wf(),
            final(self).total() == old(self).total(),
            final(self).permits() == old(self).permits(),
            final(self).started() == old(self).started(),
            final(self).history() == old(self).history().push(outcome),
            final(self).in_flight() == if old(self).in_flight() > 0 {
                old(self).in_flight() - 1
            } else {
                0
            },
            match progress {
                Some(p) => first_item_failure(final(self).history()) is None && p.total
                    == final(self).total() && p.completed == if final(self).history().len()
                    < u32::MAX {
                    final(self).history().len()
                } else {
                    u32::MAX as nat
                },
                None => first_item_failure(final(self).history()) is Some,
            },
    {
        let _ = self.pool.release();
        self.tally.record(outcome)
    }

    /// Ends the batch, once `next` has said to stop.
    pub fn finish(self) -> (result: Result<(), Failure>)
        requires
            self.wf(),
        ensures
            result == batch_result(self.total(), self.history()),
    {
        self.tally.finish()
    }
}

/// Judges a stored batch of `num_neurons` pages from the outcomes of its
/// tasks, given in the order in which the tasks ended: the first failure met;
/// else success if every page is accounted for; else a fatal fault.
pub fn scrape_layer_to_files(num_neurons: u32, outcomes: Vec<ItemOutcome>) -> (result: Result<
    (),
    Failure,
>)
    ensures
        result == batch_result(num_neurons as nat, outcomes@),
{
    let mut tally = BatchTally::new(num_neurons);
    let ghost all = outcomes@;
    for outcome in it: outcomes
        invariant
            it.seq() == all,
            tally.wf(),
            tally.expected() == num_neurons,
            tally.history() == all.take(it.index() as int),
    {
        let ghost before = tally.history();
        let _ = tally.record(outcome);
        proof {
            assert(before.push(outcome) =~= all.take(it.index() + 1));
        }
    }
    proof {
        assert(all.take(all.len() as int) =~= all);
    }
    tally.finish()
}

} // verus!
