//! The mathematical model of a scheduler and its transitions.

use crate::config::GrevmConfig;
use crate::context::ContextView;
use crate::metrics::ExecuteMetricsCollector;
use crate::model::{
    AbortReason, Assignment, DependencyUpdate, ExecutionAttempt, LocationId, MemoryEntry, ReadVersion,
    ResultView, Task, TransactionStatus, TxState, TxVersion,
};
use crate::mv_memory::{
    estimated, last_writer, reads_valid, recorded, retracted, Cells, MemoryView,
};
use crate::outcome::TxExecutionOutcome;
use crate::read_set::{no_reads, versions};
use crate::tx_dependency::TxId;
use crate::tx_set::members;
use crate::wait::{WaitSlot, PARKED};
use vstd::prelude::*;

verus! {

/// The threads that have to be unparked.
#[derive(Debug, Clone, Copy, PartialEq, Eq, Structural)]
pub struct Wakes {
    /// The finality role.
    pub finality: bool,
    /// The commit role.
    pub commit: bool,
}

/// How a run is started, stopped and woken.
#[verifier::ext_equal]
#[verifier::reject_recursive_types(E)]
pub struct ControlView<E> {
    /// Execution was started.
    pub started: bool,
    /// Every role has to stop.
    pub aborted: bool,
    /// Why, if a cause was given; the first cause stays.
    pub reason: Option<AbortReason<E>>,
    /// A caller asked to stop.
    pub interrupted: bool,
    /// The slot on which the finality role waits.
    pub finality_wait: WaitSlot,
    /// The slot on which the commit role waits.
    pub commit_wait: WaitSlot,
    /// The threads that have to be unparked.
    pub wakes: Wakes,
}

impl<E> ControlView<E> {
    /// After a notification of the finality role.
    pub open spec fn finality_notified(self) -> ControlView<E> {
        ControlView {
            finality_wait: self.finality_wait.notified(),
            wakes: Wakes {
                finality: self.wakes.finality || self.finality_wait.state.value == PARKED,
                ..self.wakes
            },
            ..self
        }
    }

    /// After a notification of the commit role.
    pub open spec fn commit_notified(self) -> ControlView<E> {
        ControlView {
            commit_wait: self.commit_wait.notified(),
            wakes: Wakes {
                commit: self.wakes.commit || self.commit_wait.state.value == PARKED,
                ..self.wakes
            },
            ..self
        }
    }

    /// After every role was told to stop.
    pub open spec fn stopped(self) -> ControlView<E> {
        (ControlView { aborted: true, ..self }).finality_notified().commit_notified()
    }

    /// After a stop for `reason`; an earlier cause is kept.
    pub open spec fn aborted_for(self, reason: AbortReason<E>) -> ControlView<E> {
        (ControlView {
            reason: if self.reason is Some {
                self.reason
            } else {
                Some(reason)
            },
            ..self
        }).stopped()
    }
}

/// Some read of a transaction at `txid` sees a write of `writer`.
pub open spec fn reads_from(
    cells: Cells,
    txid: TxId,
    reads: Map<LocationId, ReadVersion>,
    writer: int,
) -> bool {
    exists|location: LocationId| #[trigger]
        reads.contains_key(location) && location < cells.len() && last_writer(
            cells[location as int],
            txid as int,
        ) == writer
}

/// The highest transaction in `floor..bound` that a transaction at `txid` reads from.
pub open spec fn highest_read(
    cells: Cells,
    txid: TxId,
    reads: Map<LocationId, ReadVersion>,
    floor: int,
    bound: int,
) -> Option<TxId>
    decreases bound,
{
    if bound <= floor || bound <= 0 {
        None
    } else if reads_from(cells, txid, reads, bound - 1) {
        Some((bound - 1) as usize)
    } else {
        highest_read(cells, txid, reads, floor, bound - 1)
    }
}

/// The mathematical content of a scheduler.
#[verifier::ext_equal]
#[verifier::reject_recursive_types(S)]
#[verifier::reject_recursive_types(R)]
#[verifier::reject_recursive_types(E)]
pub struct SchedulerView<S, R, E> {
    /// The canonical state of the block.
    pub state: S,
    /// The configuration.
    pub config: GrevmConfig,
    /// The ordered outcomes of the committed prefix.
    pub outcomes: Seq<TxExecutionOutcome>,
    /// Per transaction, where it stands.
    pub states: Seq<TxState>,
    /// Per transaction, what its last finished incarnation produced.
    pub results: Seq<Option<ResultView<R, E>>>,
    /// The speculative writes.
    pub memory: MemoryView,
    /// Cursors and timestamps.
    pub ctx: ContextView,
    /// The latest roll-back that concerns a final transaction or its predecessors.
    pub finality_lower: usize,
    /// How often a transaction was started.
    pub starts: int,
    /// How the run is started, stopped and woken.
    pub control: ControlView<E>,
    /// Counters.
    pub metrics: ExecuteMetricsCollector,
}

impl<S, R, E> SchedulerView<S, R, E> {
    /// Stopped for `reason`.
    pub open spec fn aborted_for(self, reason: AbortReason<E>) -> SchedulerView<S, R, E> {
        SchedulerView { control: self.control.aborted_for(reason), ..self }
    }

    /// With another status of `txid`.
    pub open spec fn with_status(
        self,
        txid: TxId,
        status: TransactionStatus,
    ) -> SchedulerView<S, R, E> {
        SchedulerView {
            states: self.states.update(
                txid as int,
                TxState { status, ..self.states[txid as int] },
            ),
            ..self
        }
    }

    /// With validation rolled back to `index`.
    pub open spec fn rewound(self, index: int) -> SchedulerView<S, R, E> {
        SchedulerView { ctx: self.ctx.rewound(index), ..self }
    }

    /// The latest uncommitted transaction that a transaction at `txid` reads from.
    pub open spec fn dependent_tx(
        self,
        txid: TxId,
        reads: Map<LocationId, ReadVersion>,
    ) -> Option<TxId> {
        highest_read(self.memory.cells, txid, reads, self.ctx.finality, txid as int)
    }

    /// `txid` can be started.
    pub open spec fn startable(self, txid: TxId) -> bool {
        self.states[txid as int].status == TransactionStatus::Initial || self.states[txid as int].status
            == TransactionStatus::Conflict
    }

    /// After a worker was sent to `txid`: it is started if it has to be executed, and otherwise
    /// only counted.
    pub open spec fn sent_to(self, txid: TxId) -> SchedulerView<S, R, E> {
        if self.startable(txid) {
            SchedulerView {
                states: self.states.update(
                    txid as int,
                    TxState {
                        status: TransactionStatus::Executing,
                        incarnation: (self.states[txid as int].incarnation + 1) as usize,
                        ..self.states[txid as int]
                    },
                ),
                starts: self.starts + 1,
                ..self
            }
        } else {
            SchedulerView {
                metrics: ExecuteMetricsCollector {
                    useless_dependent_update: self.metrics.useless_dependent_update.plus(1),
                    ..self.metrics
                },
                ..self
            }
        }
    }

    /// The task of a worker that was sent to `txid`.
    pub open spec fn task_at(self, txid: TxId) -> Option<Task> {
        if self.startable(txid) {
            Some(
                Task::Execution(
                    TxVersion {
                        txid,
                        incarnation: (self.states[txid as int].incarnation + 1) as usize,
                    },
                ),
            )
        } else {
            None
        }
    }

    /// How a worker goes on that was sent to `txid`: it has a task, or the dependents of the
    /// transaction have to be released.
    pub open spec fn assignment_at(self, txid: TxId) -> Assignment {
        Assignment {
            task: self.task_at(txid),
            update: if self.startable(txid) {
                None
            } else {
                Some(DependencyUpdate::Skip(txid))
            },
        }
    }

    /// Timestamps and incarnation numbers suffice for one more step.
    pub open spec fn headroom(self) -> bool {
        &&& self.ctx.clock <= usize::MAX - 2
        &&& self.starts < usize::MAX
    }

    /// The incarnation is the one that a worker currently executes.
    pub open spec fn executing(self, version: TxVersion) -> bool {
        &&& version.txid < self.states.len()
        &&& self.states[version.txid as int].status == TransactionStatus::Executing
        &&& self.states[version.txid as int].incarnation == version.incarnation
    }
}

/// The attempt cannot stand: it failed, or it read something that is expected to change.
pub open spec fn attempt_conflicts<R, E>(attempt: ExecutionAttempt<R, E>) -> bool {
    match attempt {
        ExecutionAttempt::Done { read_accurate_origin, read_estimate, .. } => !read_accurate_origin
            || read_estimate,
        ExecutionAttempt::Failed { .. } => true,
    }
}

/// Every location that the attempt wrote is known.
pub open spec fn attempt_located<R, E>(attempt: ExecutionAttempt<R, E>, locations: nat) -> bool {
    match attempt {
        ExecutionAttempt::Done { write_set, .. } => forall|l: LocationId| #[trigger]
            members(write_set).contains(l) ==> l < locations,
        ExecutionAttempt::Failed { .. } => true,
    }
}

/// The attempt wrote a location that the previous incarnation had not written.
pub open spec fn writes_new_locations<R, E>(
    last: Option<ResultView<R, E>>,
    writes: Set<LocationId>,
) -> bool {
    match last {
        Some(result) => !writes.subset_of(result.writes),
        None => true,
    }
}

impl<S, R, E> SchedulerView<S, R, E> {
    /// The memory after an attempt: the new writes replace the old ones, or, after a failure, the
    /// old ones are expected to change.
    pub open spec fn cells_after(
        self,
        version: TxVersion,
        attempt: ExecutionAttempt<R, E>,
    ) -> Cells {
        let last = self.results[version.txid as int];
        match attempt {
            ExecutionAttempt::Done { write_set, .. } => {
                let entry = MemoryEntry {
                    incarnation: version.incarnation,
                    estimate: attempt_conflicts(attempt),
                };
                let cells = recorded(
                    self.memory.cells,
                    version.txid,
                    members(write_set),
                    entry,
                );
                match last {
                    Some(result) => retracted(
                        cells,
                        version.txid,
                        result.writes,
                        members(write_set),
                    ),
                    None => cells,
                }
            },
            ExecutionAttempt::Failed { .. } => match last {
                Some(result) => estimated(self.memory.cells, version.txid, result.writes),
                None => self.memory.cells,
            },
        }
    }

    /// The result that an attempt leaves; a failure keeps the locations of the previous writes.
    pub open spec fn result_after(
        self,
        version: TxVersion,
        attempt: ExecutionAttempt<R, E>,
    ) -> ResultView<R, E> {
        match attempt {
            ExecutionAttempt::Done { read_set, write_set, output, .. } => ResultView {
                reads: versions(read_set),
                writes: members(write_set),
                outcome: Ok(output),
            },
            ExecutionAttempt::Failed { error } => ResultView {
                reads: no_reads(),
                writes: match self.results[version.txid as int] {
                    Some(result) => result.writes,
                    None => Set::empty(),
                },
                outcome: Err(error),
            },
        }
    }

    /// The counters after an attempt.
    pub open spec fn metrics_after(
        self,
        attempt: ExecutionAttempt<R, E>,
    ) -> ExecuteMetricsCollector {
        let metrics = self.metrics;
        match attempt {
            ExecutionAttempt::Done { read_accurate_origin, read_estimate, .. } => {
                if !read_accurate_origin {
                    ExecuteMetricsCollector {
                        conflict_cnt: metrics.conflict_cnt.plus(1),
                        conflict_by_miner: metrics.conflict_by_miner.plus(1),
                        ..metrics
                    }
                } else if read_estimate {
                    ExecuteMetricsCollector {
                        conflict_cnt: metrics.conflict_cnt.plus(1),
                        conflict_by_estimate: metrics.conflict_by_estimate.plus(1),
                        ..metrics
                    }
                } else {
                    metrics
                }
            },
            ExecutionAttempt::Failed { .. } => ExecuteMetricsCollector {
                conflict_cnt: metrics.conflict_cnt.plus(1),
                conflict_by_error: metrics.conflict_by_error.plus(1),
                ..metrics
            },
        }
    }

    /// The control state after an attempt: a failure of the next transaction to be committed
    /// stops the run, since nothing before it can change any more.
    pub open spec fn control_after(
        self,
        version: TxVersion,
        commit_idx: usize,
        attempt: ExecutionAttempt<R, E>,
    ) -> ControlView<E> {
        match attempt {
            ExecutionAttempt::Failed { error } => if commit_idx == version.txid {
                if error is Transaction {
                    self.control.aborted_for(AbortReason::FallbackSequential)
                } else {
                    self.control.aborted_for(AbortReason::FatalEvmError(version.txid))
                }
            } else {
                self.control
            },
            _ => self.control,
        }
    }

    /// After the outcome of an attempt was recorded, before the worker moves on.
    pub open spec fn attempted(
        self,
        version: TxVersion,
        commit_idx: usize,
        attempt: ExecutionAttempt<R, E>,
    ) -> SchedulerView<S, R, E> {
        let txid = version.txid as int;
        SchedulerView {
            memory: MemoryView { cells: self.cells_after(version, attempt), ..self.memory },
            results: self.results.update(txid, Some(self.result_after(version, attempt))),
            metrics: self.metrics_after(attempt),
            control: self.control_after(version, commit_idx, attempt),
            states: self.states.update(
                txid,
                TxState {
                    status: if attempt_conflicts(attempt) {
                        TransactionStatus::Conflict
                    } else {
                        TransactionStatus::Executed
                    },
                    ..self.states[txid]
                },
            ),
            ctx: self.ctx.executed(version.txid),
            ..self
        }
    }

    /// How the dependency graph learns of an attempt.
    pub open spec fn update_after(
        self,
        version: TxVersion,
        attempt: ExecutionAttempt<R, E>,
    ) -> DependencyUpdate {
        match attempt {
            ExecutionAttempt::Done { read_accurate_origin, read_estimate, read_set, .. } => {
                if !read_accurate_origin {
                    DependencyUpdate::KeyTx(version.txid)
                } else if read_estimate {
                    DependencyUpdate::Add(
                        version.txid,
                        highest_read(
                            self.cells_after(version, attempt),
                            version.txid,
                            versions(read_set),
                            self.ctx.finality,
                            version.txid as int,
                        ),
                    )
                } else {
                    DependencyUpdate::Release(version.txid)
                }
            },
            ExecutionAttempt::Failed { .. } => DependencyUpdate::KeyTx(version.txid),
        }
    }

    /// After an attempt, when the dependency graph answered `next`.
    pub open spec fn settled(
        self,
        version: TxVersion,
        commit_idx: usize,
        attempt: ExecutionAttempt<R, E>,
        next: Option<TxId>,
    ) -> SchedulerView<S, R, E> {
        let after = self.attempted(version, commit_idx, attempt);
        let txid = version.txid;
        if attempt_conflicts(attempt) {
            after.rewound(txid + 1)
        } else if next is Some {
            after.rewound(txid as int).sent_to(next->0)
        } else if writes_new_locations(
            self.results[txid as int],
            self.result_after(version, attempt).writes,
        ) {
            after.rewound(txid as int)
        } else {
            after.with_status(txid, TransactionStatus::Validating)
        }
    }

    /// How the worker goes on after an attempt.
    pub open spec fn assignment_after(
        self,
        version: TxVersion,
        commit_idx: usize,
        attempt: ExecutionAttempt<R, E>,
        next: Option<TxId>,
    ) -> Assignment {
        let after = self.attempted(version, commit_idx, attempt);
        let txid = version.txid;
        if attempt_conflicts(attempt) {
            Assignment { task: None, update: None }
        } else if next is Some {
            after.rewound(txid as int).assignment_at(next->0)
        } else if writes_new_locations(
            self.results[txid as int],
            self.result_after(version, attempt).writes,
        ) {
            Assignment { task: None, update: None }
        } else {
            Assignment { task: Some(Task::Validation(version)), update: None }
        }
    }

    /// The reads of the last finished incarnation of `txid`.
    pub open spec fn reads_of(self, txid: TxId) -> Map<LocationId, ReadVersion> {
        self.results[txid as int]->0.reads
    }

    /// Validating `txid` now succeeds.
    pub open spec fn validates(self, txid: TxId) -> bool {
        reads_valid(self.memory.cells, txid, self.reads_of(txid))
    }

    /// The latest transaction that the last finished incarnation of `txid` would read from now.
    pub open spec fn found_dependency(self, txid: TxId) -> Option<TxId> {
        highest_read(self.memory.cells, txid, self.reads_of(txid), 0, txid as int)
    }

    /// How the dependency graph learns of a failed validation.
    pub open spec fn conflict_update(self, txid: TxId) -> DependencyUpdate {
        DependencyUpdate::Add(
            txid,
            match self.found_dependency(txid) {
                Some(dep) => if dep >= self.ctx.finality {
                    Some(dep)
                } else {
                    None
                },
                None => None,
            },
        )
    }

    /// After a validation of `txid` that could be carried out.
    pub open spec fn validated(self, txid: TxId) -> SchedulerView<S, R, E> {
        let timestamp = self.ctx.clock as usize;
        let ticked = self.ctx.ticked();
        let counted = ExecuteMetricsCollector {
            validation_cnt: self.metrics.validation_cnt.plus(1),
            ..self.metrics
        };
        let after = if self.validates(txid) {
            SchedulerView {
                metrics: counted,
                ctx: ticked.confirmed(txid, timestamp),
                states: self.states.update(
                    txid as int,
                    TxState {
                        status: TransactionStatus::Unconfirmed,
                        dependency: self.found_dependency(txid),
                        ..self.states[txid as int]
                    },
                ),
                ..self
            }
        } else {
            SchedulerView {
                metrics: ExecuteMetricsCollector {
                    conflict_cnt: counted.conflict_cnt.plus(1),
                    conflict_by_version: counted.conflict_by_version.plus(1),
                    ..counted
                },
                memory: MemoryView {
                    cells: estimated(
                        self.memory.cells,
                        txid,
                        self.results[txid as int]->0.writes,
                    ),
                    ..self.memory
                },
                ctx: ticked.rewound(txid + 1),
                states: self.states.update(
                    txid as int,
                    TxState {
                        status: TransactionStatus::Conflict,
                        dependency: self.found_dependency(txid),
                        ..self.states[txid as int]
                    },
                ),
                ..self
            }
        };
        if txid == self.ctx.finality {
            SchedulerView { control: after.control.finality_notified(), ..after }
        } else {
            after
        }
    }
}

} // verus!
