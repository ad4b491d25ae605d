//! The scheduler of one block: execution, validation, finality and commit steps.

use crate::config::GrevmConfig;
use crate::context::{ContextView, SchedulerContext};
use crate::metrics::{zero_metrics, ExecuteMetricsCollector};
use crate::model::{
    initial_state, AbortReason, LocationId, MemoryEntry, ReadVersion, ResultView,
    TransactionResult, TxState,
};
use crate::mv_memory::{
    estimated, last_writer, latest_before, lemma_last_writer, recorded, retracted, Cells,
    MVMemory, MemoryView,
};
use crate::outcome::TxExecutionOutcome;
use crate::primitives::Key;
use crate::read_set::{reads_items, versions, ReadSet};
use crate::scheduler_view::{highest_read, reads_from, ControlView, SchedulerView, Wakes};
use crate::tx_dependency::TxId;
use crate::tx_set::members;
use crate::wait::{WaitSlot, WaitState, IDLE};
use ahash::AHashSet;
use vstd::prelude::*;

verus! {

broadcast use SchedulerContext::lemma_wf;

/// Coordinates the execution, validation and finalization of the transactions of one block.
///
/// `S` is the canonical state, `R` the output of a speculative execution and `E` the error of the
/// database.
#[verifier::reject_recursive_types(S)]
#[verifier::reject_recursive_types(R)]
#[verifier::reject_recursive_types(E)]
pub struct Scheduler<S, R, E> {
    block_size: usize,
    state: Option<S>,
    config: GrevmConfig,
    results: Vec<TxExecutionOutcome>,
    tx_states: Vec<TxState>,
    tx_results: Vec<Option<TransactionResult<R, E>>>,
    mv_memory: MVMemory,
    scheduler_ctx: SchedulerContext,
    finality_lower_ts: usize,
    starts: usize,
    started: bool,
    abort: bool,
    abort_reason: Option<AbortReason<E>>,
    interrupted: bool,
    finality_wait: WaitSlot,
    commit_wait: WaitSlot,
    wakes: Wakes,
    metrics: ExecuteMetricsCollector,
}

/// The content of an optional result.
pub open spec fn result_view<R, E>(result: Option<TransactionResult<R, E>>) -> Option<
    ResultView<R, E>,
> {
    match result {
        Some(result) => Some(result@),
        None => None,
    }
}

impl<S, R, E> View for Scheduler<S, R, E> {
    type V = SchedulerView<S, R, E>;

    closed spec fn view(&self) -> SchedulerView<S, R, E> {
        SchedulerView {
            state: self.state->0,
            config: self.config,
            outcomes: self.results@,
            states: self.tx_states@,
            results: self.tx_results@.map_values(
                |result: Option<TransactionResult<R, E>>| result_view(result),
            ),
            memory: self.mv_memory@,
            ctx: self.scheduler_ctx@,
            finality_lower: self.finality_lower_ts,
            starts: self.starts as int,
            control: ControlView {
                started: self.started,
                aborted: self.abort,
                reason: self.abort_reason,
                interrupted: self.interrupted,
                finality_wait: self.finality_wait,
                commit_wait: self.commit_wait,
                wakes: self.wakes,
            },
            metrics: self.metrics,
        }
    }
}

/// The content of a scheduler that has not started.
pub open spec fn initial_view<S, R, E>(
    block_size: nat,
    state: S,
    config: GrevmConfig,
) -> SchedulerView<S, R, E> {
    SchedulerView {
        state,
        config,
        outcomes: Seq::empty(),
        states: Seq::new(block_size, |t: int| initial_state()),
        results: Seq::new(block_size, |t: int| None),
        memory: MemoryView { ids: Map::empty(), cells: Seq::empty() },
        ctx: ContextView::start(block_size),
        finality_lower: 0,
        starts: 0,
        control: ControlView {
            started: false,
            aborted: false,
            reason: None,
            interrupted: false,
            finality_wait: WaitSlot { registered: false, state: WaitState { value: IDLE } },
            commit_wait: WaitSlot { registered: false, state: WaitState { value: IDLE } },
            wakes: Wakes { finality: false, commit: false },
        },
        metrics: zero_metrics(),
    }
}

impl<S, R, E> Scheduler<S, R, E> {
    /// The representation is consistent: one state and one result slot per transaction, and no
    /// transaction was started more often than all of them together or depends on a later one.
    pub closed spec fn wf(&self) -> bool {
        &&& self.state is Some
        &&& self.tx_states.len() == self.block_size
        &&& self.tx_results.len() == self.block_size
        &&& self.mv_memory.wf()
        &&& self.scheduler_ctx.wf()
        &&& self.scheduler_ctx@.lower.len() == self.block_size
        &&& self.finality_wait.wf()
        &&& self.commit_wait.wf()
        &&& forall|t: int|
            0 <= t < self.block_size ==> {
                &&& (#[trigger] self.tx_states@[t]).incarnation <= self.starts
                &&& self.tx_states@[t].dependency matches Some(dep) ==> dep < t
            }
    }

    /// What the representation invariant says about the view.
    pub broadcast proof fn lemma_wf(&self)
        requires
            #[trigger] self.wf(),
        ensures
            self@.states.len() <= usize::MAX,
            self@.results.len() == self@.states.len(),
            self@.ctx.lower.len() == self@.states.len(),
            self@.ctx.unconfirmed.len() == self@.states.len(),
            0 <= self@.ctx.validation <= self@.states.len(),
            0 <= self@.ctx.finality <= self@.states.len(),
            0 <= self@.ctx.committed <= self@.states.len(),
            0 <= self@.ctx.clock <= usize::MAX,
            0 <= self@.starts <= usize::MAX,
            self@.memory.cells.len() <= usize::MAX,
            self@.control.finality_wait.wf(),
            self@.control.commit_wait.wf(),
            forall|t: int|
                0 <= t < self@.states.len() ==> {
                    &&& (#[trigger] self@.states[t]).incarnation <= self@.starts
                    &&& self@.states[t].dependency matches Some(dep) ==> dep < t
                },
    {
        self.scheduler_ctx.lemma_wf();
        self.mv_memory.lemma_ids();
    }

    /// A scheduler for a block of `block_size` transactions on top of `state`.
    pub(crate) fn build(block_size: usize, state: S, config: GrevmConfig) -> (scheduler: Self)
        ensures
            scheduler.wf(),
            scheduler@ == initial_view::<S, R, E>(block_size as nat, state, config),
    {
        let mut tx_states: Vec<TxState> = Vec::new();
        let mut tx_results: Vec<Option<TransactionResult<R, E>>> = Vec::new();
        let mut t: usize = 0;
        while t < block_size
            invariant
                t <= block_size,
                tx_states@ == Seq::new(t as nat, |i: int| initial_state()),
                tx_results.len() == t,
                forall|i: int| 0 <= i < t ==> (#[trigger] tx_results@[i]) is None,
            decreases block_size - t,
        {
            tx_states.push(TxState::default());
            tx_results.push(None);
            t = t + 1;
            assert(tx_states@ =~= Seq::new(t as nat, |i: int| initial_state()));
        }
        let scheduler = Scheduler {
            block_size,
            state: Some(state),
            config,
            results: Vec::new(),
            tx_states,
            tx_results,
            mv_memory: MVMemory::new(),
            scheduler_ctx: SchedulerContext::new(block_size),
            finality_lower_ts: 0,
            starts: 0,
            started: false,
            abort: false,
            abort_reason: None,
            interrupted: false,
            finality_wait: WaitSlot::new(),
            commit_wait: WaitSlot::new(),
            wakes: Wakes { finality: false, commit: false },
            metrics: ExecuteMetricsCollector::default(),
        };
        assert(scheduler@.results =~= Seq::new(block_size as nat, |t: int| None));
        assert(scheduler@.outcomes =~= Seq::<TxExecutionOutcome>::empty());
        scheduler
    }

    /// The number of transactions in the block.
    pub fn block_size(&self) -> (size: usize)
        requires
            self.wf(),
        ensures
            size == self@.states.len(),
    {
        self.block_size
    }

    /// Whether timestamps and incarnation numbers suffice for one more step.
    pub fn has_headroom(&self) -> (enough: bool)
        requires
            self.wf(),
        ensures
            enough == self@.headroom(),
    {
        self.scheduler_ctx.has_headroom() && self.starts < usize::MAX
    }

    /// The number of a storage location, by which speculative reads and writes refer to it.
    pub fn locate(&mut self, key: Key) -> (location: LocationId)
        requires
            old(self).wf(),
        ensures
            final(self).wf(),
            location < final(self)@.memory.cells.len(),
            final(self)@.memory.ids == old(self)@.memory.ids.insert(key, location),
            old(self)@.memory.ids.contains_key(key) ==> final(self)@ == old(self)@,
            !old(self)@.memory.ids.contains_key(key) ==> {
                &&& location == old(self)@.memory.cells.len()
                &&& final(self)@ == (SchedulerView {
                    memory: MemoryView {
                        ids: old(self)@.memory.ids.insert(key, location),
                        cells: old(self)@.memory.cells.push(Map::empty()),
                    },
                    ..old(self)@
                })
            },
    {
        let location: LocationId = self.mv_memory.locate(key);
        assert(self@.memory.ids =~= old(self)@.memory.ids.insert(key, location));
        location
    }

    /// Wakes the finality role if it sleeps.
    pub(crate) fn notify_finality(&mut self)
        requires
            old(self).wf(),
        ensures
            final(self).wf(),
            final(self)@ == (SchedulerView {
                control: old(self)@.control.finality_notified(),
                ..old(self)@
            }),
    {
        if self.finality_wait.notify() {
            self.wakes.finality = true;
        }
    }

    /// Wakes the commit role if it sleeps.
    pub(crate) fn notify_commit(&mut self)
        requires
            old(self).wf(),
        ensures
            final(self).wf(),
            final(self)@ == (SchedulerView {
                control: old(self)@.control.commit_notified(),
                ..old(self)@
            }),
    {
        if self.commit_wait.notify() {
            self.wakes.commit = true;
        }
    }

    /// Stop every scheduler role without classifying the cause as a recoverable execution error.
    pub fn cancel(&mut self)
        requires
            old(self).wf(),
        ensures
            final(self).wf(),
            final(self)@ == (SchedulerView { control: old(self)@.control.stopped(), ..old(self)@ }),
    {
        self.abort = true;
        self.notify_finality();
        self.notify_commit();
    }

    /// Stops every role and preserves the first cause.
    pub fn abort(&mut self, reason: AbortReason<E>)
        requires
            old(self).wf(),
        ensures
            final(self).wf(),
            final(self)@ == old(self)@.aborted_for(reason),
    {
        if self.abort_reason.is_none() {
            self.abort_reason = Some(reason);
        }
        self.cancel();
    }

    /// Whether the run has to stop.
    pub fn is_aborted(&self) -> (aborted: bool)
        ensures
            aborted == self@.control.aborted,
    {
        self.abort
    }

    /// The latest transaction in `floor..` that a transaction at `txid` reads from.
    pub(crate) fn highest_read(&self, txid: TxId, reads: &ReadSet, floor: usize) -> (highest: Option<TxId>)
        requires
            self.wf(),
        ensures
            highest == highest_read(
                self@.memory.cells,
                txid,
                versions(*reads),
                floor as int,
                txid as int,
            ),
            highest matches Some(writer) ==> floor <= writer < txid,
    {
        let items: Vec<(LocationId, ReadVersion)> = reads_items(reads);
        let ghost cells = self@.memory.cells;
        let mut highest: Option<TxId> = None;
        let mut i: usize = 0;
        while i < items.len()
            invariant
                i <= items.len(),
                cells == self@.memory.cells,
                forall|k: int|
                    0 <= k < items@.len() ==> versions(*reads).contains_pair(
                        (#[trigger] items@[k]).0,
                        items@[k].1,
                    ),
                highest matches Some(h) ==> {
                    &&& floor <= h < txid
                    &&& reads_from(cells, txid, versions(*reads), h as int)
                },
                forall|k: int|
                    0 <= k < i && (#[trigger] items@[k]).0 < cells.len() ==> {
                        let writer = last_writer(cells[items@[k].0 as int], txid as int);
                        writer >= floor ==> highest is Some && writer <= highest->0
                    },
            decreases items.len() - i,
        {
            let location: LocationId = items[i].0;
            proof {
                assert(versions(*reads).contains_pair(items@[i as int].0, items@[i as int].1));
                if location < cells.len() {
                    lemma_last_writer(cells[location as int], txid as int);
                }
            }
            if let Some((writer, _)) = self.mv_memory.latest_before(location, txid) {
                if writer >= floor {
                    let better: bool = match highest {
                        Some(current) => writer > current,
                        None => true,
                    };
                    if better {
                        highest = Some(writer);
                        assert(reads_from(cells, txid, versions(*reads), writer as int));
                    }
                }
            }
            i = i + 1;
        }
        proof {
            assert forall|writer: int| floor <= writer < txid && #[trigger] reads_from(
                cells,
                txid,
                versions(*reads),
                writer,
            ) implies highest is Some && writer <= highest->0 by {
                let location = choose|location: LocationId| #[trigger]
                    versions(*reads).contains_key(location) && location < cells.len()
                        && last_writer(cells[location as int], txid as int) == writer;
                assert(items@.contains((location, versions(*reads)[location])));
            }
            lemma_highest_read(cells, txid, versions(*reads), floor as int, txid as int, highest);
        }
        highest
    }
}

impl<S, R, E> Scheduler<S, R, E> {
    /// The scheduling state of a transaction.
    pub fn tx_state(&self, txid: TxId) -> (state: TxState)
        requires
            self.wf(),
            txid < self@.states.len(),
        ensures
            state == self@.states[txid as int],
    {
        self.tx_states[txid]
    }

    /// Replaces the scheduling state of a transaction.
    pub(crate) fn set_state(&mut self, txid: TxId, state: TxState)
        requires
            old(self).wf(),
            txid < old(self)@.states.len(),
            state.incarnation <= old(self)@.starts,
            state.dependency matches Some(dep) ==> dep < txid,
        ensures
            final(self).wf(),
            final(self)@ == (SchedulerView {
                states: old(self)@.states.update(txid as int, state),
                ..old(self)@
            }),
    {
        self.tx_states.set(txid, state);
    }

    /// Counts a started transaction.
    pub(crate) fn count_start(&mut self)
        requires
            old(self).wf(),
            old(self)@.starts < usize::MAX,
        ensures
            final(self).wf(),
            final(self)@ == (SchedulerView { starts: old(self)@.starts + 1, ..old(self)@ }),
    {
        self.starts = self.starts + 1;
    }

    /// The result of the last finished incarnation of a transaction.
    pub fn tx_result(&self, txid: TxId) -> (result: &Option<TransactionResult<R, E>>)
        requires
            self.wf(),
            txid < self@.states.len(),
        ensures
            result_view(*result) == self@.results[txid as int],
    {
        &self.tx_results[txid]
    }

    /// Takes the result of the last finished incarnation out.
    pub(crate) fn take_result(&mut self, txid: TxId) -> (result: Option<TransactionResult<R, E>>)
        requires
            old(self).wf(),
            txid < old(self)@.states.len(),
        ensures
            final(self).wf(),
            result_view(result) == old(self)@.results[txid as int],
            final(self)@ == (SchedulerView {
                results: old(self)@.results.update(txid as int, None),
                ..old(self)@
            }),
    {
        let ghost before = self@;
        let result = self.tx_results[txid].take();
        assert(self@.results =~= before.results.update(txid as int, None));
        result
    }

    /// Replaces the result of the last finished incarnation.
    pub(crate) fn set_result(&mut self, txid: TxId, result: TransactionResult<R, E>)
        requires
            old(self).wf(),
            txid < old(self)@.states.len(),
        ensures
            final(self).wf(),
            final(self)@ == (SchedulerView {
                results: old(self)@.results.update(txid as int, Some(result@)),
                ..old(self)@
            }),
    {
        let ghost before = self@;
        self.tx_results.set(txid, Some(result));
        assert(self@.results =~= before.results.update(txid as int, Some(result@)));
    }

    /// Records the writes of a transaction.
    pub(crate) fn record_writes(
        &mut self,
        txid: TxId,
        writes: &AHashSet<LocationId>,
        entry: MemoryEntry,
    )
        requires
            old(self).wf(),
            forall|l: LocationId| #[trigger]
                members(*writes).contains(l) ==> l < old(self)@.memory.cells.len(),
        ensures
            final(self).wf(),
            final(self)@ == (SchedulerView {
                memory: MemoryView {
                    cells: recorded(old(self)@.memory.cells, txid, members(*writes), entry),
                    ..old(self)@.memory
                },
                ..old(self)@
            }),
    {
        self.mv_memory.record(txid, writes, entry);
    }

    /// Takes back the writes of a transaction that were not repeated.
    pub(crate) fn retract_writes(
        &mut self,
        txid: TxId,
        old_writes: &AHashSet<LocationId>,
        new_writes: &AHashSet<LocationId>,
    )
        requires
            old(self).wf(),
        ensures
            final(self).wf(),
            final(self)@ == (SchedulerView {
                memory: MemoryView {
                    cells: retracted(
                        old(self)@.memory.cells,
                        txid,
                        members(*old_writes),
                        members(*new_writes),
                    ),
                    ..old(self)@.memory
                },
                ..old(self)@
            }),
    {
        self.mv_memory.retract(txid, old_writes, new_writes);
    }

    /// Marks the writes of a transaction as expected to change.
    pub(crate) fn mark_estimate(&mut self, txid: TxId, write_set: &AHashSet<LocationId>)
        requires
            old(self).wf(),
        ensures
            final(self).wf(),
            final(self)@ == (SchedulerView {
                memory: MemoryView {
                    cells: estimated(old(self)@.memory.cells, txid, members(*write_set)),
                    ..old(self)@.memory
                },
                ..old(self)@
            }),
    {
        self.mv_memory.mark_estimate(txid, write_set);
    }

    /// The latest write to a location by a transaction before `txid`.
    pub fn latest_write(&self, location: LocationId, txid: TxId) -> (latest: Option<
        (TxId, MemoryEntry),
    >)
        requires
            self.wf(),
        ensures
            latest == latest_before(self@.memory.cells, location, txid),
    {
        self.mv_memory.latest_before(location, txid)
    }

    /// The number of known locations.
    pub fn location_count(&self) -> (count: usize)
        requires
            self.wf(),
        ensures
            count == self@.memory.cells.len(),
    {
        self.mv_memory.len()
    }

    /// The counters.
    pub fn metrics(&self) -> (metrics: ExecuteMetricsCollector)
        ensures
            metrics == self@.metrics,
    {
        self.metrics
    }

    /// Replaces the counters.
    pub(crate) fn set_metrics(&mut self, metrics: ExecuteMetricsCollector)
        requires
            old(self).wf(),
        ensures
            final(self).wf(),
            final(self)@ == (SchedulerView { metrics, ..old(self)@ }),
    {
        self.metrics = metrics;
    }

    /// The cursors and timestamps.
    pub fn context(&self) -> (context: &SchedulerContext)
        requires
            self.wf(),
        ensures
            context.wf(),
            context@ == self@.ctx,
    {
        &self.scheduler_ctx
    }

    /// Remembers that a transaction was executed.
    pub(crate) fn mark_executed(&mut self, txid: TxId)
        requires
            old(self).wf(),
            txid < old(self)@.states.len(),
        ensures
            final(self).wf(),
            final(self)@ == (SchedulerView { ctx: old(self)@.ctx.executed(txid), ..old(self)@ }),
    {
        self.scheduler_ctx.executed(txid);
    }

    /// Rolls validation back.
    pub(crate) fn rewind_validation_to(&mut self, index: usize)
        requires
            old(self).wf(),
            old(self)@.ctx.clock < usize::MAX,
        ensures
            final(self).wf(),
            final(self)@ == old(self)@.rewound(index as int),
    {
        self.scheduler_ctx.rewind_validation_to(index);
    }

    /// Draws a logical timestamp.
    pub(crate) fn logical_timestamp(&mut self) -> (timestamp: usize)
        requires
            old(self).wf(),
            old(self)@.ctx.clock < usize::MAX,
        ensures
            final(self).wf(),
            timestamp == old(self)@.ctx.clock,
            final(self)@ == (SchedulerView { ctx: old(self)@.ctx.ticked(), ..old(self)@ }),
    {
        self.scheduler_ctx.logical_timestamp()
    }

    /// Remembers that a validation that began at `timestamp` succeeded.
    pub(crate) fn confirm(&mut self, txid: TxId, timestamp: usize)
        requires
            old(self).wf(),
            txid < old(self)@.states.len(),
        ensures
            final(self).wf(),
            final(self)@ == (SchedulerView {
                ctx: old(self)@.ctx.confirmed(txid, timestamp),
                ..old(self)@
            }),
    {
        self.scheduler_ctx.unconfirmed(txid, timestamp);
    }

    /// Claims the next transaction for validation among those before `execution_idx`.
    pub(crate) fn next_validation_idx(&mut self, execution_idx: usize) -> (claimed: Option<TxId>)
        requires
            old(self).wf(),
        ensures
            final(self).wf(),
            ({
                let before = old(self)@;
                if before.ctx.validation < before.ctx.validation_limit(execution_idx) {
                    &&& claimed == Some(before.ctx.validation as usize)
                    &&& final(self)@ == (SchedulerView {
                        ctx: ContextView { validation: before.ctx.validation + 1, ..before.ctx },
                        ..before
                    })
                } else {
                    &&& claimed is None
                    &&& final(self)@ == before
                }
            }),
    {
        self.scheduler_ctx.next_validation_idx(execution_idx)
    }

    /// Publishes the number of final transactions and the latest roll-back that concerns them.
    pub(crate) fn publish_finality(&mut self, index: usize, lower_ts: usize)
        requires
            old(self).wf(),
            index <= old(self)@.states.len(),
        ensures
            final(self).wf(),
            final(self)@ == (SchedulerView {
                ctx: ContextView { finality: index as int, ..old(self)@.ctx },
                finality_lower: lower_ts,
                ..old(self)@
            }),
    {
        self.scheduler_ctx.publish_finality(index);
        self.finality_lower_ts = lower_ts;
    }

    /// The latest roll-back that concerns a final transaction or its predecessors.
    pub(crate) fn finality_lower(&self) -> (lower_ts: usize)
        ensures
            lower_ts == self@.finality_lower,
    {
        self.finality_lower_ts
    }

    /// Publishes the number of committed transactions.
    pub(crate) fn publish_commit(&mut self, index: usize)
        requires
            old(self).wf(),
            index <= old(self)@.states.len(),
        ensures
            final(self).wf(),
            final(self)@ == (SchedulerView {
                ctx: ContextView { committed: index as int, ..old(self)@.ctx },
                ..old(self)@
            }),
    {
        self.scheduler_ctx.publish_commit(index);
    }
}

impl<S, R, E> Scheduler<S, R, E> {
    /// The configuration.
    pub fn config(&self) -> (config: GrevmConfig)
        ensures
            config == self@.config,
    {
        self.config
    }

    /// The canonical state.
    pub fn state(&self) -> (state: &S)
        requires
            self.wf(),
        ensures
            *state == self@.state,
    {
        self.state.as_ref().unwrap()
    }

    /// Mutable access to the canonical state.
    pub fn state_mut(&mut self) -> (state: &mut S)
        requires
            old(self).wf(),
        ensures
            *state == old(self)@.state,
            final(self).wf(),
            final(self)@ == (SchedulerView { state: *final(state), ..old(self)@ }),
    {
        self.state.as_mut().unwrap()
    }

    /// Executes `txid` on the canonical state.
    pub(crate) fn transact<O, T: Fn(TxId, S) -> (O, S)>(&mut self, txid: TxId, transact: &T) -> (
    output: O)
        requires
            old(self).wf(),
            call_requires(*transact, (txid, old(self)@.state)),
        ensures
            final(self).wf(),
            call_ensures(*transact, (txid, old(self)@.state), (output, final(self)@.state)),
            final(self)@ == (SchedulerView { state: final(self)@.state, ..old(self)@ }),
    {
        let state: S = self.state.take().unwrap();
        let (output, state) = transact(txid, state);
        self.state = Some(state);
        output
    }

    /// Commits the output of `txid` to the canonical state.
    pub(crate) fn commit_with<O, K: FnOnce(TxId, R, S) -> (O, S)>(
        &mut self,
        txid: TxId,
        output: R,
        commit: K,
    ) -> (outcome: O)
        requires
            old(self).wf(),
            call_requires(commit, (txid, output, old(self)@.state)),
        ensures
            final(self).wf(),
            call_ensures(
                commit,
                (txid, output, old(self)@.state),
                (outcome, final(self)@.state),
            ),
            final(self)@ == (SchedulerView { state: final(self)@.state, ..old(self)@ }),
    {
        let state: S = self.state.take().unwrap();
        let (outcome, state) = commit(txid, output, state);
        self.state = Some(state);
        outcome
    }

    /// The ordered outcomes of the committed prefix.
    pub fn outcomes(&self) -> (outcomes: &Vec<TxExecutionOutcome>)
        ensures
            outcomes@ == self@.outcomes,
    {
        &self.results
    }

    /// Appends outcomes to the committed prefix.
    pub(crate) fn extend_outcomes(&mut self, outcomes: Vec<TxExecutionOutcome>)
        requires
            old(self).wf(),
        ensures
            final(self).wf(),
            final(self)@ == (SchedulerView {
                outcomes: old(self)@.outcomes + outcomes@,
                ..old(self)@
            }),
    {
        let mut outcomes = outcomes;
        self.results.append(&mut outcomes);
    }

    /// Appends the outcome of the next transaction to the committed prefix.
    pub(crate) fn push_outcome(&mut self, outcome: TxExecutionOutcome)
        requires
            old(self).wf(),
        ensures
            final(self).wf(),
            final(self)@ == (SchedulerView {
                outcomes: old(self)@.outcomes.push(outcome),
                ..old(self)@
            }),
    {
        self.results.push(outcome);
    }

    /// Take the ordered transaction outcomes and the corresponding state.
    ///
    /// Before execution this returns an empty outcome list and untouched state. After an error it
    /// returns the successfully committed prefix; state and outcomes always describe that same
    /// prefix.
    pub fn take_result_and_state(self) -> (parts: (Vec<TxExecutionOutcome>, S))
        requires
            self.wf(),
        ensures
            parts.0@ == self@.outcomes,
            parts.1 == self@.state,
    {
        (self.results, self.state.unwrap())
    }

    /// Whether execution was started.
    pub fn is_started(&self) -> (started: bool)
        ensures
            started == self@.control.started,
    {
        self.started
    }

    /// Remembers that execution was started.
    pub(crate) fn set_started(&mut self)
        requires
            old(self).wf(),
        ensures
            final(self).wf(),
            final(self)@ == (SchedulerView {
                control: ControlView { started: true, ..old(self)@.control },
                ..old(self)@
            }),
    {
        self.started = true;
    }

    /// Whether a caller asked to stop.
    pub fn is_interrupted(&self) -> (interrupted: bool)
        ensures
            interrupted == self@.control.interrupted,
    {
        self.interrupted
    }

    /// Remembers that a caller asked to stop.
    pub(crate) fn set_interrupted(&mut self)
        requires
            old(self).wf(),
        ensures
            final(self).wf(),
            final(self)@ == (SchedulerView {
                control: ControlView { interrupted: true, ..old(self)@.control },
                ..old(self)@
            }),
    {
        self.interrupted = true;
    }

    /// The cause of a stop, if one was given.
    pub fn abort_reason(&self) -> (reason: &Option<AbortReason<E>>)
        ensures
            *reason == self@.control.reason,
    {
        &self.abort_reason
    }

    /// The slot on which the finality role waits.
    pub fn finality_wait(&mut self) -> (slot: &mut WaitSlot)
        requires
            old(self).wf(),
        ensures
            *slot == old(self)@.control.finality_wait,
            final(slot).wf() ==> final(self).wf(),
            final(self)@ == (SchedulerView {
                control: ControlView { finality_wait: *final(slot), ..old(self)@.control },
                ..old(self)@
            }),
    {
        &mut self.finality_wait
    }

    /// The slot on which the commit role waits.
    pub fn commit_wait(&mut self) -> (slot: &mut WaitSlot)
        requires
            old(self).wf(),
        ensures
            *slot == old(self)@.control.commit_wait,
            final(slot).wf() ==> final(self).wf(),
            final(self)@ == (SchedulerView {
                control: ControlView { commit_wait: *final(slot), ..old(self)@.control },
                ..old(self)@
            }),
    {
        &mut self.commit_wait
    }

    /// Takes the threads that have to be unparked.
    pub fn take_wakes(&mut self) -> (wakes: Wakes)
        requires
            old(self).wf(),
        ensures
            final(self).wf(),
            wakes == old(self)@.control.wakes,
            final(self)@ == (SchedulerView {
                control: ControlView {
                    wakes: Wakes { finality: false, commit: false },
                    ..old(self)@.control
                },
                ..old(self)@
            }),
    {
        let wakes = self.wakes;
        self.wakes = Wakes { finality: false, commit: false };
        wakes
    }
}

/// What the highest read is, from its two defining properties.
proof fn lemma_highest_read(
    cells: Cells,
    txid: TxId,
    reads: Map<LocationId, ReadVersion>,
    floor: int,
    bound: int,
    highest: Option<TxId>,
)
    requires
        0 <= floor,
        0 <= bound <= txid,
        highest matches Some(h) ==> floor <= h < bound && reads_from(cells, txid, reads, h as int),
        forall|writer: int|
            floor <= writer < bound && #[trigger] reads_from(cells, txid, reads, writer)
                ==> highest is Some && writer <= highest->0,
    ensures
        highest_read(cells, txid, reads, floor, bound) == highest,
    decreases bound,
{
    if bound > floor && bound > 0 {
        if !reads_from(cells, txid, reads, bound - 1) {
            lemma_highest_read(cells, txid, reads, floor, bound - 1, highest);
        }
    }
}

} // verus!
