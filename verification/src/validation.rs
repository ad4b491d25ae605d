//! Validation steps and the choice of the next task.

use crate::context::ContextView;
use crate::metrics::ExecuteMetricsCollector;
use crate::model::{
    AbortReason, DependencyUpdate, LocationId, ReadVersion, Task, TransactionStatus, TxState,
    TxVersion,
};
use crate::mv_memory::{read_valid, reads_valid};
use crate::read_set::{reads_items, versions, ReadSet};
use crate::scheduler::Scheduler;
use crate::scheduler_view::SchedulerView;
use crate::tx_dependency::TxId;
use vstd::prelude::*;

verus! {

broadcast use Scheduler::lemma_wf;

/// What one round of a worker's search for work found.
#[derive(Debug, Clone, Copy, PartialEq, Eq, Structural)]
pub enum NextStep {
    /// The block is finished or the run was stopped.
    Finished,
    /// The worker has a task.
    Work(Task),
    /// The transaction found needs no execution; the dependency graph has to be told, and the search
    /// begun again.
    Skipped(DependencyUpdate),
    /// Nothing was found; search again.
    Retry,
}

impl<S, R, E> SchedulerView<S, R, E> {
    /// Counted as one more validation.
    pub open spec fn validation_counted(self) -> SchedulerView<S, R, E> {
        SchedulerView {
            metrics: ExecuteMetricsCollector {
                validation_cnt: self.metrics.validation_cnt.plus(1),
                ..self.metrics
            },
            ..self
        }
    }

    /// A claimed transaction has something to validate.
    pub open spec fn validatable(self, txid: TxId) -> bool {
        self.states[txid as int].status == TransactionStatus::Executed
            || self.states[txid as int].status == TransactionStatus::Unconfirmed
    }

    /// A worker that searches up to `execution_idx` claims a transaction for validation.
    pub open spec fn claims_validation(self, execution_idx: usize) -> bool {
        self.ctx.validation < self.ctx.validation_limit(execution_idx)
    }

    /// After the claim of a transaction for validation.
    pub open spec fn validation_claimed(self, execution_idx: usize) -> SchedulerView<S, R, E> {
        let txid = self.ctx.validation as usize;
        if self.claims_validation(execution_idx) {
            let claimed = SchedulerView {
                ctx: ContextView { validation: self.ctx.validation + 1, ..self.ctx },
                ..self
            };
            if self.validatable(txid) {
                claimed.with_status(txid, TransactionStatus::Validating)
            } else {
                claimed
            }
        } else {
            self
        }
    }

    /// The validation task that a claim yields.
    pub open spec fn validation_task(self, execution_idx: usize) -> Option<Task> {
        let txid = self.ctx.validation as usize;
        if self.claims_validation(execution_idx) && self.validatable(txid) {
            Some(
                Task::Validation(
                    TxVersion { txid, incarnation: self.states[txid as int].incarnation },
                ),
            )
        } else {
            None
        }
    }
}

impl<S, R, E> Scheduler<S, R, E> {
    /// Whether every read of a transaction at `txid` still sees what it would read now.
    fn check_reads(&self, txid: TxId, read_set: &ReadSet) -> (valid: bool)
        requires
            self.wf(),
        ensures
            valid == reads_valid(self@.memory.cells, txid, versions(*read_set)),
    {
        let items: Vec<(LocationId, ReadVersion)> = reads_items(read_set);
        let ghost cells = self@.memory.cells;
        let mut i: usize = 0;
        while i < items.len()
            invariant
                self.wf(),
                cells == self@.memory.cells,
                i <= items.len(),
                forall|k: int|
                    0 <= k < items@.len() ==> versions(*read_set).contains_pair(
                        (#[trigger] items@[k]).0,
                        items@[k].1,
                    ),
                forall|k: int|
                    0 <= k < i ==> read_valid(
                        cells,
                        txid,
                        (#[trigger] items@[k]).0,
                        items@[k].1,
                    ),
            decreases items.len() - i,
        {
            let (location, version) = items[i];
            assert(versions(*read_set).contains_pair(items@[i as int].0, items@[i as int].1));
            let valid: bool = match self.latest_write(location, txid) {
                Some((previous_id, latest_version)) => {
                    if latest_version.estimate {
                        false
                    } else {
                        match version {
                            ReadVersion::MvMemory(seen) => seen.txid == previous_id
                                && seen.incarnation == latest_version.incarnation,
                            ReadVersion::Storage => false,
                        }
                    }
                },
                None => match version {
                    ReadVersion::Storage => true,
                    ReadVersion::MvMemory(_) => false,
                },
            };
            if !valid {
                assert(versions(*read_set).contains_key(location));
                return false;
            }
            i = i + 1;
        }
        assert forall|location: LocationId| #[trigger]
            versions(*read_set).contains_key(location) implies read_valid(
            cells,
            txid,
            location,
            versions(*read_set)[location],
        ) by {
            assert(items@.contains((location, versions(*read_set)[location])));
        }
        true
    }

    /// Validates an incarnation: compares every version that it read with the one that it would
    /// read now. If one differs or is expected to change, the transaction has to be executed
    /// again, its writes are expected to change, and everything behind it has to be validated
    /// again. Otherwise the transaction is confirmed as of the timestamp drawn at the start.
    /// Returns what the dependency graph has to be told; the worker has no further task.
    pub fn validate(&mut self, version: TxVersion) -> (update: Option<DependencyUpdate>)
        requires
            old(self).wf(),
            old(self)@.headroom(),
            version.txid < old(self)@.states.len(),
        ensures
            final(self).wf(),
            ({
                let before = old(self)@;
                let txid = version.txid;
                let state = before.states[txid as int];
                if state.status != TransactionStatus::Validating {
                    &&& update is None
                    &&& final(self)@ == before
                } else if state.incarnation != version.incarnation {
                    &&& update is None
                    &&& final(self)@ == before.aborted_for(
                        AbortReason::ParallelError {
                            txid,
                            message: "inconsistent incarnation during validation",
                        },
                    )
                } else if before.results[txid as int] is None {
                    &&& update is None
                    &&& final(self)@ == before.validation_counted().aborted_for(
                        AbortReason::ParallelError {
                            txid,
                            message: "transaction has no result during validation",
                        },
                    )
                } else if before.results[txid as int]->0.outcome is Err {
                    &&& update is None
                    &&& final(self)@ == before.validation_counted().aborted_for(
                        AbortReason::ParallelError {
                            txid,
                            message: "failed transaction reached validation",
                        },
                    )
                } else {
                    &&& final(self)@ == before.validated(txid)
                    &&& update == if before.validates(txid) {
                        None
                    } else {
                        Some(before.conflict_update(txid))
                    }
                }
            }),
    {
        let txid: TxId = version.txid;
        let ghost before = self@;
        let tx_state = self.tx_state(txid);
        if tx_state.status != TransactionStatus::Validating {
            return None;
        }
        if tx_state.incarnation != version.incarnation {
            self.abort(
                AbortReason::ParallelError {
                    txid,
                    message: "inconsistent incarnation during validation",
                },
            );
            return None;
        }
        let mut metrics = self.metrics();
        metrics.validation_cnt.increment();
        self.set_metrics(metrics);
        let result = match self.take_result(txid) {
            Some(result) => result,
            None => {
                assert(self@.results =~= before.results);
                self.abort(
                    AbortReason::ParallelError {
                        txid,
                        message: "transaction has no result during validation",
                    },
                );
                return None;
            },
        };
        if result.execute_result.is_err() {
            self.set_result(txid, result);
            assert(self@.results =~= before.results);
            self.abort(
                AbortReason::ParallelError {
                    txid,
                    message: "failed transaction reached validation",
                },
            );
            return None;
        }
        let ts: usize = self.logical_timestamp();
        let valid: bool = self.check_reads(txid, &result.read_set);
        let dependency: Option<TxId> = self.highest_read(txid, &result.read_set, 0);
        assert(valid == before.validates(txid));
        assert(dependency == before.found_dependency(txid));
        let update: Option<DependencyUpdate> = if valid {
            self.set_result(txid, result);
            assert(self@.results =~= before.results);
            self.confirm(txid, ts);
            self.set_state(
                txid,
                TxState {
                    status: TransactionStatus::Unconfirmed,
                    incarnation: tx_state.incarnation,
                    dependency,
                },
            );
            None
        } else {
            let mut metrics = self.metrics();
            metrics.conflict_cnt.increment();
            metrics.conflict_by_version.increment();
            self.set_metrics(metrics);
            self.mark_estimate(txid, &result.write_set);
            self.set_result(txid, result);
            assert(self@.results =~= before.results);
            self.rewind_validation_to(txid + 1);
            self.set_state(
                txid,
                TxState {
                    status: TransactionStatus::Conflict,
                    incarnation: tx_state.incarnation,
                    dependency,
                },
            );
            let dep_tx: Option<TxId> = match dependency {
                Some(dep) => if dep >= self.context().finality_idx() {
                    Some(dep)
                } else {
                    None
                },
                None => None,
            };
            Some(DependencyUpdate::Add(txid, dep_tx))
        };
        if txid == self.context().finality_idx() {
            self.notify_finality();
        }
        update
    }

    /// Whether a worker should yield its time slice before it searches for work.
    pub fn should_yield(&self, execution_idx: usize) -> (yielding: bool)
        requires
            self.wf(),
        ensures
            yielding == !(execution_idx < self@.states.len() || self@.ctx.validation
                < self@.states.len()),
    {
        !self.context().should_schedule(execution_idx)
    }

    /// One round of a worker's search for work: first a transaction to be validated among those
    /// before `execution_idx`, then one that `ready` names for execution.
    pub fn next<N: FnOnce() -> Option<TxId>>(&mut self, execution_idx: usize, ready: N) -> (step:
        NextStep)
        requires
            old(self).wf(),
            old(self)@.headroom(),
            call_requires(ready, ()),
            forall|txid: TxId| #[trigger]
                call_ensures(ready, (), Some(txid)) ==> txid < old(self)@.states.len(),
        ensures
            final(self).wf(),
            ({
                let before = old(self)@;
                let claimed = before.validation_claimed(execution_idx);
                if before.ctx.finality == before.states.len() || before.control.aborted {
                    &&& step == NextStep::Finished
                    &&& final(self)@ == before
                } else if before.validation_task(execution_idx) is Some {
                    &&& step == NextStep::Work(before.validation_task(execution_idx)->0)
                    &&& final(self)@ == claimed
                } else {
                    exists|candidate: Option<TxId>| {
                        &&& #[trigger] call_ensures(ready, (), candidate)
                        &&& match candidate {
                            None => step == NextStep::Retry && final(self)@ == claimed,
                            Some(txid) => {
                                &&& final(self)@ == claimed.sent_to(txid)
                                &&& step == match claimed.task_at(txid) {
                                    Some(task) => NextStep::Work(task),
                                    None => NextStep::Skipped(DependencyUpdate::Skip(txid)),
                                }
                            },
                        }
                    }
                }
            }),
    {
        if self.context().finished() || self.is_aborted() {
            return NextStep::Finished;
        }
        if let Some(validation_idx) = self.next_validation_idx(execution_idx) {
            let tx = self.tx_state(validation_idx);
            let validatable: bool = match tx.status {
                TransactionStatus::Executed | TransactionStatus::Unconfirmed => true,
                _ => false,
            };
            if validatable {
                self.set_state(
                    validation_idx,
                    TxState {
                        status: TransactionStatus::Validating,
                        incarnation: tx.incarnation,
                        dependency: tx.dependency,
                    },
                );
                return NextStep::Work(
                    Task::Validation(TxVersion::new(validation_idx, tx.incarnation)),
                );
            }
        }
        match ready() {
            Some(execute_id) => match self.execution_task(execute_id).task {
                Some(task) => NextStep::Work(task),
                None => NextStep::Skipped(DependencyUpdate::Skip(execute_id)),
            },
            None => NextStep::Retry,
        }
    }
}

} // verus!
