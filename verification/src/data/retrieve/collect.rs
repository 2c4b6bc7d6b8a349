//! Collecting the pages of a whole layer: all of them in index order, or the
//! first failure and nothing else.
//!
//! The caller starts one task per neuron and hands each task's outcome to a
//! `LayerCollector` in the order in which the tasks complete. As soon as
//! `record` answers `false` the caller cancels what is still running; outcomes
//! recorded after that point change nothing.

use itertools::Itertools;
use vstd::prelude::*;
use crate::data::neuroscope_model_page::NeuroscopeModelPage;
use crate::failure::Failure;

verus! {

/// How one task ended.
#[derive(Debug)]
pub enum TaskOutcome {
    /// The task fetched its page.
    Finished { neuron_index: u32, page: NeuroscopeModelPage },
    /// The task reports a failure of its fetch.
    Failed { neuron_index: u32, failure: Failure },
    /// The task crashed.
    Panicked,
    /// The task was cancelled before it could end.
    Cancelled,
}

/// A page together with the index of the neuron it was fetched for.
pub type Indexed = (u32, NeuroscopeModelPage);

/// The failure that an outcome stands for, if it is one. A crash is a fatal
/// fault, and so is a cancellation that nobody asked for.
pub open spec fn failure_of(outcome: TaskOutcome) -> Option<Failure> {
    match outcome {
        TaskOutcome::Finished { .. } => None,
        TaskOutcome::Failed { failure, .. } => Some(failure),
        TaskOutcome::Panicked => Some(Failure::FatalInternalFault),
        TaskOutcome::Cancelled => Some(Failure::FatalInternalFault),
    }
}

/// The failure of the earliest outcome that is one.
pub open spec fn first_failure(history: Seq<TaskOutcome>) -> Option<Failure>
    decreases history.len(),
{
    if history.len() == 0 {
        None
    } else {
        match first_failure(history.drop_last()) {
            Some(failure) => Some(failure),
            None => failure_of(history.last()),
        }
    }
}

/// The pages that were fetched, in the order in which their tasks completed.
pub open spec fn finished(history: Seq<TaskOutcome>) -> Seq<Indexed>
    decreases history.len(),
{
    if history.len() == 0 {
        Seq::empty()
    } else {
        match history.last() {
            TaskOutcome::Finished { neuron_index, page } => finished(history.drop_last()).push(
                (neuron_index, page),
            ),
            _ => finished(history.drop_last()),
        }
    }
}

/// No two pages were fetched for the same neuron.
pub open spec fn distinct_indices(done: Seq<Indexed>) -> bool {
    forall|j: int, k: int|
        0 <= j < k < done.len() ==> (#[trigger] done[j]).0 != (#[trigger] done[k]).0
}

/// The pages are those of the neurons `0` to `count - 1`, one each: no gap, no
/// duplicate, nothing out of range.
pub open spec fn contiguous(done: Seq<Indexed>, count: nat) -> bool {
    &&& done.len() == count
    &&& forall|k: int| 0 <= k < done.len() ==> (#[trigger] done[k]).0 < count
    &&& distinct_indices(done)
}

/// `pages` holds each fetched page at the index of its neuron.
pub open spec fn in_index_order(done: Seq<Indexed>, pages: Seq<NeuroscopeModelPage>) -> bool {
    &&& pages.len() == done.len()
    &&& forall|k: int|
        0 <= k < done.len() ==> 0 <= (#[trigger] done[k]).0 < pages.len() && pages[done[k].0 as int]
            == done[k].1
}

/// What collecting a layer of `count` neurons comes to, given how the tasks
/// ended: the first failure, if there was one; else all pages in index order,
/// if they are contiguous; else a fatal fault. Never a partial list.
pub open spec fn is_layer_result(
    count: nat,
    history: Seq<TaskOutcome>,
    result: Result<Vec<NeuroscopeModelPage>, Failure>,
) -> bool {
    match first_failure(history) {
        Some(failure) => result == Err::<Vec<NeuroscopeModelPage>, Failure>(failure),
        None => if contiguous(finished(history), count) {
            result matches Ok(pages) && in_index_order(finished(history), pages@)
        } else {
            result == Err::<Vec<NeuroscopeModelPage>, Failure>(Failure::FatalInternalFault)
        },
    }
}

/// Calls `Itertools::tuple_windows` for windows of two.
///
/// Taken on trust, as the method's documentation says: the windows are the
/// pairs of neighbours, in order, so a list of `n` values has `n - 1` of them
/// and a list of fewer than two has none.
#[verifier::external_body]
fn neighbours(values: &Vec<u32>) -> (pairs: Vec<(u32, u32)>)
    ensures
        pairs@.len() == if values@.len() == 0 {
            0
        } else {
            values@.len() - 1
        },
        forall|i: int|
            0 <= i < pairs@.len() ==> #[trigger] pairs@[i] == (values@[i], values@[i + 1]),
{
    values.iter().copied().tuple_windows().collect()
}

/// A strictly ascending list of `n` numbers below `n` holds at least `i` at
/// place `i`.
proof fn lemma_strict_lower(s: Seq<u32>, i: int)
    requires
        0 <= i < s.len(),
        forall|a: int, b: int| 0 <= a < b < s.len() ==> s[a] < s[b],
    ensures
        s[i] >= i,
    decreases i,
{
    if i > 0 {
        lemma_strict_lower(s, i - 1);
    }
}

/// A strictly ascending list of `n` numbers below `n` holds at most `i` at
/// place `i`.
proof fn lemma_strict_upper(s: Seq<u32>, i: int)
    requires
        0 <= i < s.len(),
        forall|a: int, b: int| 0 <= a < b < s.len() ==> s[a] < s[b],
        forall|a: int| 0 <= a < s.len() ==> s[a] < s.len(),
    ensures
        s[i] <= i,
    decreases s.len() - i,
{
    if i < s.len() - 1 {
        lemma_strict_upper(s, i + 1);
    }
}

/// Whether the list is `0, 1, ..., count - 1`.
pub fn is_run_from_zero(indices: &Vec<u32>, count: u32) -> (yes: bool)
    ensures
        yes == (indices@.len() == count && forall|i: int|
            0 <= i < indices@.len() ==> indices@[i] == i),
{
    if indices.len() != count as usize {
        return false;
    }
    if indices.len() == 0 {
        return true;
    }
    if indices[0] != 0 {
        return false;
    }
    let pairs = neighbours(indices);
    let mut at: usize = 0;
    while at < pairs.len()
        invariant
            at <= pairs.len(),
            pairs@.len() == indices@.len() - 1,
            indices@[0] == 0,
            forall|i: int|
                0 <= i < pairs@.len() ==> #[trigger] pairs@[i] == (indices@[i], indices@[i + 1]),
            forall|i: int| 0 <= i <= at ==> indices@[i] == i,
        decreases pairs.len() - at,
    {
        let (before, after) = pairs[at];
        if before == u32::MAX || before + 1 != after {
            assert(indices@[at + 1] != at + 1);
            return false;
        }
        at = at + 1;
    }
    true
}

/// The pages of one layer as they come in, kept in index order.
pub struct LayerCollector {
    count: u32,
    indices: Vec<u32>,
    pages: Vec<NeuroscopeModelPage>,
    failure: Option<Failure>,
    history: Ghost<Seq<TaskOutcome>>,
    place: Ghost<Seq<int>>,
    origin: Ghost<Seq<int>>,
}

impl LayerCollector {
    /// The number of neurons whose pages are to be collected.
    pub closed spec fn expected(&self) -> nat {
        self.count as nat
    }

    /// The outcomes recorded so far, in the order in which they were recorded.
    pub closed spec fn history(&self) -> Seq<TaskOutcome> {
        self.history@
    }

    /// What the collector holds agrees with its history.
    pub closed spec fn wf(&self) -> bool {
        let done = finished(self.history@);
        let indices = self.indices@;
        let pages = self.pages@;
        let place = self.place@;
        let origin = self.origin@;
        &&& self.failure == first_failure(self.history@)
        &&& self.failure is None ==> {
            &&& indices.len() == done.len()
            &&& pages.len() == done.len()
            &&& place.len() == done.len()
            &&& origin.len() == done.len()
            &&& forall|i: int, j: int| 0 <= i < j < indices.len() ==> indices[i] <= indices[j]
            &&& forall|k: int|
                0 <= k < done.len() ==> 0 <= #[trigger] place[k] < done.len() && indices[place[k]]
                    == done[k].0 && pages[place[k]] == done[k].1
            &&& forall|j: int, k: int|
                0 <= j < k < done.len() ==> #[trigger] place[j] != #[trigger] place[k]
            &&& forall|i: int|
                0 <= i < done.len() ==> 0 <= #[trigger] origin[i] < done.len() && indices[i]
                    == done[origin[i]].0
            &&& distinct_indices(done) ==> forall|i: int, j: int|
                0 <= i < j < indices.len() ==> indices[i] < indices[j]
        }
    }

    /// A collector for a layer of `num_neurons` neurons, with nothing recorded.
    pub fn new(num_neurons: u32) -> (collector: Self)
        ensures
            collector.wf(),
            collector.expected() == num_neurons,
            collector.history() == Seq::<TaskOutcome>::empty(),
    {
        Self {
            count: num_neurons,
            indices: Vec::new(),
            pages: Vec::new(),
            failure: None,
            history: Ghost(Seq::empty()),
            place: Ghost(Seq::empty()),
            origin: Ghost(Seq::empty()),
        }
    }

    /// Records how one task ended. Answers whether the batch is still alive:
    /// `false` from the first failure on, at which point the caller cancels the
    /// tasks that are still running.
    pub fn record(&mut self, outcome: TaskOutcome) -> (alive: bool)
        requires
            old(self).wf(),
        ensures
            final(self).wf(),
            final(self).expected() == old(self).expected(),
            final(self).history() == old(self).history().push(outcome),
            alive == (first_failure(final(self).history()) is None),
    {
        let ghost before = self.history@;
        let ghost after = before.push(outcome);
        proof {
            assert(after.drop_last() =~= before);
            assert(after.last() == outcome);
        }
        self.history = Ghost(after);
        if self.failure.is_some() {
            return false;
        }
        match outcome {
            TaskOutcome::Finished { neuron_index, page } => {
                let ghost done = finished(before);
                let ghost old_indices = self.indices@;
                let ghost old_pages = self.pages@;
                let ghost old_place = self.place@;
                let ghost old_origin = self.origin@;
                let mut at: usize = self.indices.len();
                while at > 0 && self.indices[at - 1] > neuron_index
                    invariant
                        at <= self.indices.len(),
                        self.indices@ == old_indices,
                        forall|i: int|
                            at <= i < self.indices@.len() ==> self.indices@[i] > neuron_index,
                    decreases at,
                {
                    at = at - 1;
                }
                self.indices.insert(at, neuron_index);
                self.pages.insert(at, page);
                let ghost m = done.len() as int;
                let ghost p = at as int;
                self.place = Ghost(
                    Seq::new(
                        (m + 1) as nat,
                        |k: int|
                            if k == m {
                                p
                            } else if old_place[k] >= p {
                                old_place[k] + 1
                            } else {
                                old_place[k]
                            },
                    ),
                );
                self.origin = Ghost(old_origin.insert(p, m));
                proof {
                    let grown = done.push((neuron_index, page));
                    assert(finished(after) == grown);
                    let indices = self.indices@;
                    let pages = self.pages@;
                    let place = self.place@;
                    let origin = self.origin@;
                    assert forall|i: int| 0 <= i < p implies old_indices[i] <= neuron_index by {
                        if p > 0 {
                            assert(old_indices[i] <= old_indices[p - 1]);
                        }
                    }
                    assert forall|i: int, j: int| 0 <= i < j < indices.len() implies indices[i]
                        <= indices[j] by {}
                    assert forall|k: int| 0 <= k < grown.len() implies 0 <= #[trigger] place[k]
                        < grown.len() && indices[place[k]] == grown[k].0 && pages[place[k]]
                        == grown[k].1 by {
                        if k < m {
                            assert(0 <= old_place[k] < m);
                            assert(old_indices[old_place[k]] == done[k].0);
                        }
                    }
                    assert forall|j: int, k: int| 0 <= j < k < grown.len() implies #[trigger] place[j]
                        != #[trigger] place[k] by {
                        assert(0 <= old_place[j] < m);
                        if k < m {
                            assert(old_place[j] != old_place[k]);
                        }
                    }
                    assert forall|i: int| 0 <= i < grown.len() implies 0 <= #[trigger] origin[i]
                        < grown.len() && indices[i] == grown[origin[i]].0 by {
                        if i < p {
                            assert(origin[i] == old_origin[i]);
                            assert(0 <= old_origin[i] < m);
                        } else if i > p {
                            assert(origin[i] == old_origin[i - 1]);
                            assert(0 <= old_origin[i - 1] < m);
                        }
                    }
                    if distinct_indices(grown) {
                        assert(distinct_indices(done)) by {
                            assert forall|j: int, k: int| 0 <= j < k < done.len() implies (
                            #[trigger] done[j]).0 != (#[trigger] done[k]).0 by {
                                assert(grown[j] == done[j] && grown[k] == done[k]);
                            }
                        }
                        assert forall|i: int, j: int| 0 <= i < j < indices.len() implies indices[i]
                            < indices[j] by {
                            if j == p {
                                assert(0 <= old_origin[i] < m);
                                assert(old_indices[i] == done[old_origin[i]].0);
                                assert(grown[old_origin[i]].0 != grown[m].0);
                            }
                        }
                    }
                }
                true
            },
            TaskOutcome::Failed { neuron_index, failure } => {
                self.failure = Some(failure);
                false
            },
            TaskOutcome::Panicked => {
                self.failure = Some(Failure::FatalInternalFault);
                false
            },
            TaskOutcome::Cancelled => {
                self.failure = Some(Failure::FatalInternalFault);
                false
            },
        }
    }

    /// Ends the collection, once no task is left to wait for.
    pub fn finish(self) -> (result: Result<Vec<NeuroscopeModelPage>, Failure>)
        requires
            self.wf(),
        ensures
            is_layer_result(self.expected(), self.history(), result),
    {
        let ghost done = finished(self.history@);
        match self.failure {
            Some(failure) => Err(failure),
            None => {
                if is_run_from_zero(&self.indices, self.count) {
                    proof {
                        let place = self.place@;
                        assert forall|k: int| 0 <= k < done.len() implies (#[trigger] done[k]).0
                            < self.count by {
                            assert(0 <= place[k] < done.len());
                        }
                        assert forall|j: int, k: int| 0 <= j < k < done.len() implies (
                        #[trigger] done[j]).0 != (#[trigger] done[k]).0 by {
                            assert(0 <= place[j] < done.len() && 0 <= place[k] < done.len());
                            assert(place[j] != place[k]);
                        }
                        assert forall|k: int| 0 <= k < done.len() implies 0 <= (
                        #[trigger] done[k]).0 < self.pages@.len() && self.pages@[done[k].0 as int]
                            == done[k].1 by {
                            assert(0 <= place[k] < done.len());
                        }
                    }
                    Ok(self.pages)
                } else {
                    proof {
                        if contiguous(done, self.count as nat) {
                            let indices = self.indices@;
                            let origin = self.origin@;
                            assert forall|a: int| 0 <= a < indices.len() implies indices[a]
                                < indices.len() by {
                                assert(0 <= origin[a] < done.len());
                            }
                            assert forall|i: int| 0 <= i < indices.len() implies indices[i]
                                == i by {
                                lemma_strict_lower(indices, i);
                                lemma_strict_upper(indices, i);
                            }
                        }
                    }
                    Err(Failure::FatalInternalFault)
                }
            },
        }
    }
}

/// Collects a layer of `num_neurons` neurons from the outcomes of its tasks,
/// given in the order in which the tasks completed: exactly `num_neurons`
/// pages in index order, or the first failure met, or a fatal fault where the
/// pages that came in are not those of the neurons `0` to `num_neurons - 1`.
pub fn scrape_layer(num_neurons: u32, outcomes: Vec<TaskOutcome>) -> (result: Result<
    Vec<NeuroscopeModelPage>,
    Failure,
>)
    ensures
        is_layer_result(num_neurons as nat, outcomes@, result),
        result matches Ok(pages) ==> pages@.len() == num_neurons,
{
    let mut collector = LayerCollector::new(num_neurons);
    let ghost all = outcomes@;
    for outcome in it: outcomes
        invariant
            it.seq() == all,
            collector.wf(),
            collector.expected() == num_neurons,
            collector.history() == all.take(it.index() as int),
    {
        let ghost before = collector.history();
        let _ = collector.record(outcome);
        proof {
            assert(before.push(outcome) =~= all.take(it.index() + 1));
        }
    }
    proof {
        assert(all.take(all.len() as int) =~= all);
    }
    collector.finish()
}

} // verus!
