//! Execution steps: starting incarnations and recording what they produced.

use crate::metrics::ExecuteMetricsCollector;
use crate::model::{
    AbortReason, Assignment, DependencyUpdate, ExecutionAttempt, LocationId, MemoryEntry, Task,
    TransactionResult, TransactionStatus, TxState, TxVersion,
};
use crate::read_set::{reads_new, versions, ReadSet};
use crate::scheduler::Scheduler;
use crate::scheduler_view::{attempt_located, writes_new_locations, SchedulerView};
use crate::tx_dependency::TxId;
use crate::tx_set::{members, set_contains, set_items, set_new};
use ahash::AHashSet;
use revm_context::result::EVMError;
use vstd::prelude::*;

verus! {

broadcast use Scheduler::lemma_wf;

impl<S, R, E> Scheduler<S, R, E> {
    /// The latest transaction that is not final and that a transaction at `txid` reads from. Only
    /// the highest one is kept, so that dependencies do not explode.
    pub fn generate_dependent_tx(&self, txid: TxId, read_set: &ReadSet) -> (dependent: Option<TxId>)
        requires
            self.wf(),
        ensures
            dependent == self@.dependent_tx(txid, versions(*read_set)),
    {
        self.highest_read(txid, read_set, self.context().finality_idx())
    }

    /// Sends the worker to `execute_id`: starts the next incarnation if the transaction has to be
    /// executed; otherwise its dependents have to be released and there is no task.
    pub fn execution_task(&mut self, execute_id: TxId) -> (assignment: Assignment)
        requires
            old(self).wf(),
            execute_id < old(self)@.states.len(),
            old(self)@.starts < usize::MAX,
        ensures
            final(self).wf(),
            final(self)@ == old(self)@.sent_to(execute_id),
            assignment == old(self)@.assignment_at(execute_id),
    {
        let tx = self.tx_state(execute_id);
        let startable: bool = match tx.status {
            TransactionStatus::Initial | TransactionStatus::Conflict => true,
            _ => false,
        };
        if startable {
            let incarnation: usize = tx.incarnation + 1;
            self.count_start();
            self.set_state(
                execute_id,
                TxState {
                    status: TransactionStatus::Executing,
                    incarnation,
                    dependency: tx.dependency,
                },
            );
            Assignment {
                task: Some(Task::Execution(TxVersion::new(execute_id, incarnation))),
                update: None,
            }
        } else {
            let mut metrics = self.metrics();
            metrics.useless_dependent_update.increment();
            self.set_metrics(metrics);
            Assignment { task: None, update: Some(DependencyUpdate::Skip(execute_id)) }
        }
    }

    /// Whether the incarnation is the one that a worker currently executes.
    pub fn is_executing(&self, version: &TxVersion) -> (executing: bool)
        requires
            self.wf(),
        ensures
            executing == self@.executing(*version),
    {
        if version.txid >= self.block_size() {
            return false;
        }
        let state = self.tx_state(version.txid);
        state.status == TransactionStatus::Executing && state.incarnation == version.incarnation
    }

    /// Whether every written location is known.
    pub fn is_located(&self, attempt: &ExecutionAttempt<R, E>) -> (located: bool)
        requires
            self.wf(),
        ensures
            located == attempt_located(*attempt, self@.memory.cells.len()),
    {
        match attempt {
            ExecutionAttempt::Done { write_set, .. } => all_below(write_set, self.location_count()),
            ExecutionAttempt::Failed { .. } => true,
        }
    }

    /// Begins the execution of an incarnation: returns the committed prefix on which it builds, or
    /// nothing if the incarnation is not the one to be executed.
    pub fn begin_execution(&mut self, version: TxVersion) -> (commit_idx: Option<usize>)
        requires
            old(self).wf(),
            version.txid < old(self)@.states.len(),
        ensures
            final(self).wf(),
            ({
                let before = old(self)@;
                let state = before.states[version.txid as int];
                if state.status != TransactionStatus::Executing {
                    &&& commit_idx is None
                    &&& final(self)@ == before
                } else if state.incarnation != version.incarnation {
                    &&& commit_idx is None
                    &&& final(self)@ == before.aborted_for(
                        AbortReason::ParallelError {
                            txid: version.txid,
                            message: "inconsistent incarnation during execution",
                        },
                    )
                } else {
                    &&& commit_idx == Some(before.ctx.committed as usize)
                    &&& final(self)@ == (SchedulerView {
                        metrics: ExecuteMetricsCollector {
                            execution_cnt: before.metrics.execution_cnt.plus(1),
                            ..before.metrics
                        },
                        ..before
                    })
                }
            }),
    {
        let tx_state = self.tx_state(version.txid);
        if tx_state.status != TransactionStatus::Executing {
            return None;
        }
        if tx_state.incarnation != version.incarnation {
            self.abort(
                AbortReason::ParallelError {
                    txid: version.txid,
                    message: "inconsistent incarnation during execution",
                },
            );
            return None;
        }
        let mut metrics = self.metrics();
        metrics.execution_cnt.increment();
        self.set_metrics(metrics);
        Some(self.context().committed_idx())
    }
}

impl<S, R, E> Scheduler<S, R, E> {
    /// Records the output of an attempt of the incarnation that is being executed.
    fn record_output(
        &mut self,
        version: TxVersion,
        read_accurate_origin: bool,
        read_estimate: bool,
        read_set: ReadSet,
        write_set: AHashSet<LocationId>,
        output: R,
        Ghost(attempt): Ghost<ExecutionAttempt<R, E>>,
        Ghost(commit_idx): Ghost<usize>,
    ) -> (recorded: (DependencyUpdate, bool))
        requires
            old(self).wf(),
            version.txid < old(self)@.states.len(),
            attempt == (ExecutionAttempt::<R, E>::Done {
                read_accurate_origin,
                read_estimate,
                read_set,
                write_set,
                output,
            }),
            attempt_located(attempt, old(self)@.memory.cells.len()),
        ensures
            final(self).wf(),
            final(self)@ == old(self)@.attempted(version, commit_idx, attempt),
            recorded.0 == old(self)@.update_after(version, attempt),
            recorded.1 == writes_new_locations(
                old(self)@.results[version.txid as int],
                members(write_set),
            ),
    {
        let txid: TxId = version.txid;
        let ghost before = self@;
        let tx_state = self.tx_state(txid);
        let conflict: bool = !read_accurate_origin || read_estimate;
        let last_result: Option<TransactionResult<R, E>> = self.take_result(txid);
        self.record_writes(
            txid,
            &write_set,
            MemoryEntry { incarnation: version.incarnation, estimate: conflict },
        );
        let write_new_locations: bool = match &last_result {
            Some(last) => {
                self.retract_writes(txid, &last.write_set, &write_set);
                has_new_location(&write_set, &last.write_set)
            },
            None => true,
        };
        assert(self@.memory.cells == before.cells_after(version, attempt));
        let mut metrics = self.metrics();
        let update: DependencyUpdate = if conflict {
            metrics.conflict_cnt.increment();
            if !read_accurate_origin {
                metrics.conflict_by_miner.increment();
                DependencyUpdate::KeyTx(txid)
            } else {
                metrics.conflict_by_estimate.increment();
                DependencyUpdate::Add(txid, self.generate_dependent_tx(txid, &read_set))
            }
        } else {
            DependencyUpdate::Release(txid)
        };
        self.set_metrics(metrics);
        self.set_result(
            txid,
            TransactionResult { read_set, write_set, execute_result: Ok(output) },
        );
        self.set_state(
            txid,
            TxState {
                status: if conflict {
                    TransactionStatus::Conflict
                } else {
                    TransactionStatus::Executed
                },
                incarnation: tx_state.incarnation,
                dependency: tx_state.dependency,
            },
        );
        self.mark_executed(txid);
        assert(self@.results =~= before.attempted(version, commit_idx, attempt).results);
        (update, write_new_locations)
    }

    /// Records the error of an attempt of the incarnation that is being executed.
    fn record_failure(&mut self, version: TxVersion, commit_idx: usize, error: EVMError<E>)
        requires
            old(self).wf(),
            version.txid < old(self)@.states.len(),
        ensures
            final(self).wf(),
            final(self)@ == old(self)@.attempted(
                version,
                commit_idx,
                (ExecutionAttempt::<R, E>::Failed { error }),
            ),
    {
        let txid: TxId = version.txid;
        let ghost before = self@;
        let tx_state = self.tx_state(txid);
        let invalid_transaction: bool = match &error {
            EVMError::Transaction(_) => true,
            _ => false,
        };
        let mut metrics = self.metrics();
        metrics.conflict_cnt.increment();
        metrics.conflict_by_error.increment();
        self.set_metrics(metrics);
        let write_set: AHashSet<LocationId> = match self.take_result(txid) {
            Some(last) => {
                self.mark_estimate(txid, &last.write_set);
                last.write_set
            },
            None => set_new(),
        };
        self.set_result(
            txid,
            TransactionResult { read_set: reads_new(), write_set, execute_result: Err(error) },
        );
        if commit_idx == txid {
            if invalid_transaction {
                self.abort(AbortReason::FallbackSequential);
            } else {
                self.abort(AbortReason::FatalEvmError(txid));
            }
        }
        self.set_state(
            txid,
            TxState {
                status: TransactionStatus::Conflict,
                incarnation: tx_state.incarnation,
                dependency: tx_state.dependency,
            },
        );
        self.mark_executed(txid);
        assert(self@.results =~= before.attempted(
            version,
            commit_idx,
            (ExecutionAttempt::<R, E>::Failed { error }),
        ).results);
    }

    /// Finishes the execution of the incarnation that is being executed: records its writes and
    /// its result, tells the dependency graph through `update`, and decides how the worker goes on.
    ///
    /// A conflicting or failed attempt has to be repeated, and everything behind it validated
    /// again. Otherwise the worker directly continues with a transaction that waited for this one
    /// alone, if the dependency graph names one. A repeated attempt that wrote no new location
    /// cannot have invalidated what is behind it, so only itself has to be validated.
    pub fn finish_execution<D: FnOnce(DependencyUpdate) -> Option<TxId>>(
        &mut self,
        version: TxVersion,
        commit_idx: usize,
        attempt: ExecutionAttempt<R, E>,
        update: D,
    ) -> (assignment: Assignment)
        requires
            old(self).wf(),
            old(self)@.headroom(),
            old(self)@.executing(version),
            attempt_located(attempt, old(self)@.memory.cells.len()),
            call_requires(update, (old(self)@.update_after(version, attempt),)),
            forall|next: TxId| #[trigger]
                call_ensures(
                    update,
                    (old(self)@.update_after(version, attempt),),
                    Some(next),
                ) ==> next < old(self)@.states.len(),
        ensures
            final(self).wf(),
            exists|next: Option<TxId>| {
                &&& #[trigger] call_ensures(
                    update,
                    (old(self)@.update_after(version, attempt),),
                    next,
                )
                &&& final(self)@ == old(self)@.settled(version, commit_idx, attempt, next)
                &&& assignment == old(self)@.assignment_after(version, commit_idx, attempt, next)
            },
    {
        let txid: TxId = version.txid;
        let ghost before = self@;
        let ghost whole = attempt;
        let conflict: bool;
        let dependency_update: DependencyUpdate;
        let write_new_locations: bool;
        match attempt {
            ExecutionAttempt::Done {
                read_accurate_origin,
                read_estimate,
                read_set,
                write_set,
                output,
            } => {
                conflict = !read_accurate_origin || read_estimate;
                let recorded = self.record_output(
                    version,
                    read_accurate_origin,
                    read_estimate,
                    read_set,
                    write_set,
                    output,
                    Ghost(whole),
                    Ghost(commit_idx),
                );
                dependency_update = recorded.0;
                write_new_locations = recorded.1;
            },
            ExecutionAttempt::Failed { error } => {
                conflict = true;
                self.record_failure(version, commit_idx, error);
                dependency_update = DependencyUpdate::KeyTx(txid);
                write_new_locations = true;
            },
        }
        let next: Option<TxId> = update(dependency_update);
        assert(call_ensures(update, (before.update_after(version, whole),), next));
        if conflict {
            self.rewind_validation_to(txid + 1);
            return Assignment { task: None, update: None };
        }
        if let Some(next) = next {
            self.rewind_validation_to(txid);
            return self.execution_task(next);
        }
        if write_new_locations {
            self.rewind_validation_to(txid);
            return Assignment { task: None, update: None };
        }
        let tx_state = self.tx_state(txid);
        self.set_state(
            txid,
            TxState {
                status: TransactionStatus::Validating,
                incarnation: tx_state.incarnation,
                dependency: tx_state.dependency,
            },
        );
        Assignment { task: Some(Task::Validation(version)), update: None }
    }

    /// Executes one incarnation: runs the EVM through `transact`, records what came back, tells the
    /// dependency graph through `update`, and decides how the worker goes on.
    pub fn execute_task<
        T: FnOnce(TxVersion) -> ExecutionAttempt<R, E>,
        D: FnOnce(DependencyUpdate) -> Option<TxId>,
    >(&mut self, transact: T, version: TxVersion, update: D) -> (assignment: Assignment)
        requires
            old(self).wf(),
            old(self)@.headroom(),
            version.txid < old(self)@.states.len(),
            call_requires(transact, (version,)),
            forall|attempt: ExecutionAttempt<R, E>| #[trigger]
                call_ensures(transact, (version,), attempt) ==> attempt_located(
                    attempt,
                    old(self)@.memory.cells.len(),
                ),
            forall|u: DependencyUpdate| #[trigger] call_requires(update, (u,)),
            forall|u: DependencyUpdate, next: TxId| #[trigger]
                call_ensures(update, (u,), Some(next)) ==> next < old(self)@.states.len(),
        ensures
            final(self).wf(),
            ({
                let before = old(self)@;
                let state = before.states[version.txid as int];
                if state.status != TransactionStatus::Executing {
                    &&& assignment == (Assignment { task: None, update: None })
                    &&& final(self)@ == before
                } else if state.incarnation != version.incarnation {
                    &&& assignment == (Assignment { task: None, update: None })
                    &&& final(self)@ == before.aborted_for(
                        AbortReason::ParallelError {
                            txid: version.txid,
                            message: "inconsistent incarnation during execution",
                        },
                    )
                } else {
                    let begun = SchedulerView {
                        metrics: ExecuteMetricsCollector {
                            execution_cnt: before.metrics.execution_cnt.plus(1),
                            ..before.metrics
                        },
                        ..before
                    };
                    let commit_idx = before.ctx.committed as usize;
                    exists|attempt: ExecutionAttempt<R, E>, next: Option<TxId>| {
                        &&& #[trigger] call_ensures(transact, (version,), attempt)
                        &&& #[trigger] call_ensures(
                            update,
                            (begun.update_after(version, attempt),),
                            next,
                        )
                        &&& final(self)@ == begun.settled(version, commit_idx, attempt, next)
                        &&& assignment == begun.assignment_after(
                            version,
                            commit_idx,
                            attempt,
                            next,
                        )
                    }
                }
            }),
    {
        match self.begin_execution(version) {
            Some(commit_idx) => {
                let attempt = transact(version);
                self.finish_execution(version, commit_idx, attempt, update)
            },
            None => Assignment { task: None, update: None },
        }
    }
}

/// Whether every id in the set lies below the bound.
fn all_below(set: &AHashSet<LocationId>, bound: usize) -> (below: bool)
    ensures
        below == (forall|l: LocationId| #[trigger] members(*set).contains(l) ==> l < bound),
{
    let items: Vec<LocationId> = set_items(set);
    let mut i: usize = 0;
    while i < items.len()
        invariant
            i <= items.len(),
            forall|l: LocationId| #[trigger] items@.contains(l) <==> members(*set).contains(l),
            forall|k: int| 0 <= k < i ==> (#[trigger] items@[k]) < bound,
        decreases items.len() - i,
    {
        if items[i] >= bound {
            assert(items@.contains(items@[i as int]));
            return false;
        }
        i = i + 1;
    }
    assert forall|l: LocationId| #[trigger] members(*set).contains(l) implies l < bound by {
        assert(items@.contains(l));
    }
    true
}

/// Whether some id in the set is missing in the other one.
fn has_new_location(set: &AHashSet<LocationId>, other: &AHashSet<LocationId>) -> (new: bool)
    ensures
        new == !members(*set).subset_of(members(*other)),
{
    let items: Vec<LocationId> = set_items(set);
    let mut i: usize = 0;
    while i < items.len()
        invariant
            i <= items.len(),
            forall|l: LocationId| #[trigger] items@.contains(l) <==> members(*set).contains(l),
            forall|k: int| 0 <= k < i ==> members(*other).contains(#[trigger] items@[k]),
        decreases items.len() - i,
    {
        if !set_contains(other, items[i]) {
            assert(items@.contains(items@[i as int]));
            return true;
        }
        i = i + 1;
    }
    assert forall|l: LocationId| #[trigger] members(*set).contains(l) implies members(
        *other,
    ).contains(l) by {
        assert(items@.contains(l));
    }
    false
}

} // verus!
