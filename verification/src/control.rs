//! One-shot execution lifecycle and scheduler control flow.

use crate::config::{
    EnvironmentSettings, GrevmConfig, GrevmConfigError, InvalidTransactionPolicy, SchedulerTuning,
};
use crate::atomic::RelaxedUsize;
use crate::delegated_safety::DelegatedSafetyConfig;
use crate::execution_resources::{
    granted, law_grants_are_clamped, smaller, ExecutionAllocation, MIN_PARALLEL_ROLE_COUNT,
    MIN_PARALLEL_WORKER_COUNT, PARALLEL_COORDINATOR_COUNT,
};
use crate::fallback::replayed;
use crate::metrics::{ExecuteMetricsCollector, Measurement};
use crate::model::AbortReason;
use crate::outcome::{copy_error, error_copied, GrevmError};
use crate::scheduler::{initial_view, Scheduler};
use crate::scheduler_view::{ControlView, SchedulerView};
use crate::tx_dependency::TxId;
use revm_context::result::{EVMError, ExecutionResult};
use vstd::prelude::*;

verus! {

broadcast use {GrevmConfig::lemma_combined, Scheduler::lemma_wf};

/// Typed terminal status of a run that a caller may interrupt.
pub enum SchedulerExecutionError<E> {
    /// A caller asked to stop, and that is why the run ended.
    Interrupted,
    /// The run failed.
    Failed(GrevmError<E>),
}

/// The roles are an answer to a request for `desired` workers: none were asked for and none are
/// granted, or at least two and no more than were asked for, or the request was downgraded to the
/// sequential path.
pub open spec fn answers_request(desired: Option<usize>, allocation: ExecutionAllocation) -> bool {
    match allocation {
        ExecutionAllocation::Sequential { .. } => true,
        ExecutionAllocation::Parallel { workers, .. } => {
            &&& desired is Some
            &&& MIN_PARALLEL_WORKER_COUNT <= workers <= desired->0
        },
    }
}

/// Every grant of a budget is an answer to its request, and a request for fewer than two workers
/// is answered with the sequential path.
pub proof fn law_grants_answer_requests(
    capacity: usize,
    available: usize,
    desired: Option<usize>,
    allocation: ExecutionAllocation,
)
    requires
        0 < available <= capacity,
        allocation.is_grant(granted(capacity, available, desired)),
    ensures
        answers_request(desired, allocation),
        desired is None || desired->0 < MIN_PARALLEL_WORKER_COUNT ==> allocation is Sequential,
        available < MIN_PARALLEL_ROLE_COUNT ==> allocation is Sequential,
        allocation matches ExecutionAllocation::Parallel { workers, .. } ==> workers == smaller(
            desired->0 as int,
            available - PARALLEL_COORDINATOR_COUNT,
        ),
{
    law_grants_are_clamped(capacity, available, desired);
}

impl<S, R, E> SchedulerView<S, R, E> {
    /// After the only run of the scheduler has begun.
    pub open spec fn run_begun(self) -> SchedulerView<S, R, E> {
        SchedulerView {
            control: ControlView { started: true, ..self.control },
            metrics: ExecuteMetricsCollector {
                total_tx_cnt: RelaxedUsize(self.states.len() as usize),
                ..self.metrics
            },
            ..self
        }
    }

    /// After a run that took `nanos` nanoseconds was measured.
    pub open spec fn run_measured(self, nanos: usize) -> SchedulerView<S, R, E> {
        SchedulerView {
            metrics: ExecuteMetricsCollector {
                reset_validation_idx_cnt: self.ctx.resets,
                total_time: RelaxedUsize(nanos),
                ..self.metrics
            },
            ..self
        }
    }

    /// The workers to ask the role budget for: none if the configuration or the size of the block
    /// selects the sequential path.
    pub open spec fn desired_workers(self, concurrency_level: Option<usize>) -> Option<usize> {
        if self.config.tuning().force_sequential || self.states.len() < self.config.tuning().min_parallel_txs {
            None
        } else {
            match concurrency_level {
                Some(level) => Some(level),
                None => Some(self.config.tuning().concurrency_level),
            }
        }
    }

    /// After the role budget answered a request for `desired` workers within `nanos` nanoseconds;
    /// a wait that the caller interrupted has no roles.
    pub open spec fn roles_acquired(
        self,
        desired: Option<usize>,
        allocation: Option<ExecutionAllocation>,
        nanos: usize,
    ) -> SchedulerView<S, R, E> {
        let waited = ExecuteMetricsCollector {
            resource_wait_time: RelaxedUsize(nanos),
            ..self.metrics
        };
        match allocation {
            None => (SchedulerView { metrics: waited, ..self }).interrupted(),
            Some(ExecutionAllocation::Parallel { workers, .. }) => SchedulerView {
                metrics: ExecuteMetricsCollector {
                    parallel_worker_cnt: RelaxedUsize(workers),
                    ..waited
                },
                ..self
            },
            Some(ExecutionAllocation::Sequential { .. }) => SchedulerView {
                metrics: ExecuteMetricsCollector {
                    resource_sequential_fallback: RelaxedUsize(
                        if desired is Some {
                            1
                        } else {
                            0
                        },
                    ),
                    ..waited
                },
                ..self
            },
        }
    }

    /// A second run is refused with this error.
    pub open spec fn refuses_run(self, error: GrevmError<E>) -> bool {
        &&& error.txid == self.reported_txid(self.ctx.committed)
        &&& match error.error {
            EVMError::Custom(message) => message@
                == "a Scheduler can execute only once; create a new Scheduler for each block"@,
            _ => false,
        }
    }

    /// The error that stopped the run at `txid`, if its last attempt left one.
    pub open spec fn execution_error(self, txid: TxId) -> Option<EVMError<E>> {
        if txid < self.results.len() && self.results[txid as int] is Some {
            match self.results[txid as int]->0.outcome {
                Err(error) => Some(error),
                Ok(_) => None,
            }
        } else {
            None
        }
    }
}

/// How a stopped run ends: an unrecoverable cause is returned as an error, any other cause has the
/// rest of the block replayed sequentially behind the committed prefix. The cause and the result
/// of the failed transaction stay recorded; the caller gets a copy.
pub open spec fn recovered<
    S,
    R,
    E: Clone,
    T: Fn(TxId, S) -> (Result<ExecutionResult, EVMError<E>>, S),
    C: Fn() -> bool,
>(
    stopped: SchedulerView<S, R, E>,
    after: SchedulerView<S, R, E>,
    committed: usize,
    transact: T,
    cancelled: C,
    result: Result<(), GrevmError<E>>,
) -> bool {
    match stopped.control.reason {
        Some(AbortReason::FatalEvmError(txid)) => match stopped.execution_error(txid) {
            Some(error) => {
                &&& after == stopped
                &&& match result {
                    Ok(_) => false,
                    Err(reported) => reported.txid == txid && error_copied(error, reported.error),
                }
            },
            None => replayed(stopped, after, committed, transact, cancelled, result),
        },
        Some(AbortReason::CommitError(error)) => {
            &&& after == stopped
            &&& match result {
                Ok(_) => false,
                Err(reported) => reported.txid == error.txid && error_copied(
                    error.error,
                    reported.error,
                ),
            }
        },
        Some(AbortReason::Cancelled) => {
            &&& after == stopped
            &&& match result {
                Ok(_) => false,
                Err(error) => error.cancelled_spec() && error.txid == stopped.reported_txid(
                    committed as int,
                ),
            }
        },
        _ => replayed(stopped, after, committed, transact, cancelled, result),
    }
}

impl<S, R, E> Scheduler<S, R, E> {
    /// A scheduler configured from environment settings.
    pub fn new(
        block_size: usize,
        state: S,
        settings: &EnvironmentSettings,
        parallelism: Option<usize>,
    ) -> (scheduler: Self)
        requires
            SchedulerTuning::set_by(*settings, parallelism).concurrency_level > 0,
        ensures
            scheduler.wf(),
            scheduler@ == initial_view::<S, R, E>(
                block_size as nat,
                state,
                GrevmConfig::combined(
                    SchedulerTuning::set_by(*settings, parallelism),
                    InvalidTransactionPolicy::Abort,
                    (DelegatedSafetyConfig {
                        forbid_delegated_create: false,
                        reserve_delegated_balance: false,
                    }),
                ),
            ),
    {
        let config = GrevmConfig::from_env(settings, parallelism);
        Scheduler::new_with_config(block_size, state, config)
    }

    /// Create a scheduler with an explicit, block-scoped runtime configuration.
    pub fn new_with_config(block_size: usize, state: S, config: GrevmConfig) -> (scheduler: Self)
        requires
            config.tuning().concurrency_level > 0,
        ensures
            scheduler.wf(),
            scheduler@ == initial_view::<S, R, E>(block_size as nat, state, config),
    {
        Scheduler::build(block_size, state, config)
    }

    /// A scheduler configured from environment settings but for the delegated-account policy.
    pub fn new_with_delegated_safety(
        block_size: usize,
        state: S,
        settings: &EnvironmentSettings,
        parallelism: Option<usize>,
        delegated_safety: DelegatedSafetyConfig,
    ) -> (scheduler: Self)
        requires
            SchedulerTuning::set_by(*settings, parallelism).concurrency_level > 0,
        ensures
            scheduler.wf(),
            scheduler@ == initial_view::<S, R, E>(
                block_size as nat,
                state,
                GrevmConfig::combined(
                    SchedulerTuning::set_by(*settings, parallelism),
                    InvalidTransactionPolicy::Abort,
                    delegated_safety,
                ),
            ),
    {
        let config = GrevmConfig::from_env(settings, parallelism).with_delegated_safety(
            delegated_safety,
        );
        Scheduler::new_with_config(block_size, state, config)
    }

    /// Create a scheduler with an explicit runtime configuration, or tell why the configuration is
    /// invalid.
    pub fn try_new_with_runtime_config(
        block_size: usize,
        state: S,
        config: GrevmConfig,
    ) -> (scheduler: Result<Self, GrevmConfigError>)
        ensures
            match scheduler {
                Ok(scheduler) => {
                    &&& config.tuning().concurrency_level > 0
                    &&& scheduler.wf()
                    &&& scheduler@ == initial_view::<S, R, E>(block_size as nat, state, config)
                },
                Err(error) => {
                    &&& config.tuning().concurrency_level == 0
                    &&& error == GrevmConfigError::ZeroConcurrency
                },
            },
    {
        match config.validate() {
            Ok(()) => Ok(Scheduler::new_with_config(block_size, state, config)),
            Err(error) => Err(error),
        }
    }

    /// Elects the only run of this scheduler: the first call begins it, every other call fails.
    pub fn run_once(&mut self) -> (result: Result<(), GrevmError<E>>)
        requires
            old(self).wf(),
        ensures
            final(self).wf(),
            old(self)@.control.started ==> {
                &&& final(self)@ == old(self)@
                &&& match result {
                    Ok(_) => false,
                    Err(error) => old(self)@.refuses_run(error),
                }
            },
            !old(self)@.control.started ==> result is Ok && final(self)@ == old(self)@.run_begun(),
    {
        if self.is_started() {
            return Err(
                GrevmError {
                    txid: self.reported_at(self.context().committed_idx()),
                    error: EVMError::Custom(
                        "a Scheduler can execute only once; create a new Scheduler for each block".to_owned(),
                    ),
                },
            );
        }
        self.set_started();
        let mut metrics = self.metrics();
        metrics.total_tx_cnt.set(self.block_size());
        self.set_metrics(metrics);
        Ok(())
    }

    /// The transaction at which an error at `index` is reported.
    fn reported_at(&self, index: usize) -> (txid: TxId)
        requires
            self.wf(),
        ensures
            txid == self@.reported_txid(index as int),
    {
        let block_size: usize = self.block_size();
        if block_size == 0 {
            0
        } else if index < block_size {
            index
        } else {
            block_size - 1
        }
    }

    /// Ends a run that took `nanos` nanoseconds and lists its measurements.
    pub fn finish_run(&mut self, nanos: usize) -> (samples: Vec<(Measurement, usize)>)
        requires
            old(self).wf(),
        ensures
            final(self).wf(),
            final(self)@ == old(self)@.run_measured(nanos),
            samples@ == final(self)@.metrics.samples(),
    {
        let mut metrics = self.metrics();
        metrics.reset_validation_idx_cnt.set(self.context().validation_reset_count());
        metrics.total_time.set(nanos);
        self.set_metrics(metrics);
        metrics.report()
    }

    /// Remembers how long the parallel part of a run took.
    pub fn record_execution_time(&mut self, nanos: usize)
        requires
            old(self).wf(),
        ensures
            final(self).wf(),
            final(self)@ == (SchedulerView {
                metrics: ExecuteMetricsCollector {
                    execution_time: RelaxedUsize(nanos),
                    ..old(self)@.metrics
                },
                ..old(self)@
            }),
    {
        let mut metrics = self.metrics();
        metrics.execution_time.set(nanos);
        self.set_metrics(metrics);
    }

    /// The workers to ask the role budget for, with an optional per-call concurrency override:
    /// none if the configuration or the size of the block selects the sequential path.
    pub fn desired_workers(&self, concurrency_level: Option<usize>) -> (desired: Option<usize>)
        requires
            self.wf(),
        ensures
            desired == self@.desired_workers(concurrency_level),
    {
        let tuning = self.config().scheduler_tuning();
        if tuning.force_sequential || self.block_size() < tuning.min_parallel_txs {
            return None;
        }
        match concurrency_level {
            Some(level) => Some(level),
            None => Some(tuning.concurrency_level),
        }
    }

    /// Records the answer of the role budget.
    fn record_roles(
        &mut self,
        desired: Option<usize>,
        allocation: &Option<ExecutionAllocation>,
        nanos: usize,
    )
        requires
            old(self).wf(),
        ensures
            final(self).wf(),
            final(self)@ == old(self)@.roles_acquired(desired, *allocation, nanos),
    {
        let mut metrics = self.metrics();
        metrics.resource_wait_time.set(nanos);
        match allocation {
            Some(ExecutionAllocation::Parallel { workers, .. }) => {
                metrics.parallel_worker_cnt.set(*workers);
            },
            Some(ExecutionAllocation::Sequential { .. }) => {
                metrics.resource_sequential_fallback.set(
                    if desired.is_some() {
                        1
                    } else {
                        0
                    },
                );
            },
            None => {},
        }
        self.set_metrics(metrics);
        if allocation.is_none() {
            self.poll_cancellation(true);
        }
    }

    /// Begins the only run of this scheduler, with an optional per-call concurrency override.
    /// `acquire` waits for roles and tells for how many nanoseconds it did. The granted roles say
    /// how the block is to be executed: by speculative workers beside one finality and one commit
    /// role, or, below two workers, one transaction after the other.
    pub fn parallel_execute<A: FnOnce(Option<usize>) -> (ExecutionAllocation, usize)>(
        &mut self,
        concurrency_level: Option<usize>,
        acquire: A,
    ) -> (plan: Result<ExecutionAllocation, GrevmError<E>>)
        requires
            old(self).wf(),
            match concurrency_level {
                Some(level) => level > 0,
                None => old(self)@.config.tuning().concurrency_level > 0,
            },
            call_requires(acquire, (old(self)@.desired_workers(concurrency_level),)),
            forall|allocation: ExecutionAllocation, nanos: usize| #[trigger]
                call_ensures(
                    acquire,
                    (old(self)@.desired_workers(concurrency_level),),
                    (allocation, nanos),
                ) ==> answers_request(
                    old(self)@.desired_workers(concurrency_level),
                    allocation,
                ),
        ensures
            final(self).wf(),
            old(self)@.control.started ==> {
                &&& final(self)@ == old(self)@
                &&& match plan {
                    Ok(_) => false,
                    Err(error) => old(self)@.refuses_run(error),
                }
            },
            !old(self)@.control.started ==> match plan {
                Ok(allocation) => {
                    let desired = old(self)@.desired_workers(concurrency_level);
                    &&& answers_request(desired, allocation)
                    &&& exists|nanos: usize| {
                        &&& #[trigger] call_ensures(acquire, (desired,), (allocation, nanos))
                        &&& final(self)@ == old(self)@.run_begun().roles_acquired(
                            desired,
                            Some(allocation),
                            nanos,
                        )
                    }
                },
                Err(_) => false,
            },
    {
        match self.run_once() {
            Err(error) => Err(error),
            Ok(()) => {
                let desired: Option<usize> = self.desired_workers(concurrency_level);
                let (allocation, nanos) = acquire(desired);
                let answer = Some(allocation);
                self.record_roles(desired, &answer, nanos);
                Ok(answer.unwrap())
            },
        }
    }

    /// Begins the only run of this scheduler by its own configuration.
    pub fn execute<A: FnOnce(Option<usize>) -> (ExecutionAllocation, usize)>(
        &mut self,
        acquire: A,
    ) -> (plan: Result<ExecutionAllocation, GrevmError<E>>)
        requires
            old(self).wf(),
            old(self)@.config.tuning().concurrency_level > 0,
            call_requires(acquire, (old(self)@.desired_workers(None),)),
            forall|allocation: ExecutionAllocation, nanos: usize| #[trigger]
                call_ensures(
                    acquire,
                    (old(self)@.desired_workers(None),),
                    (allocation, nanos),
                ) ==> answers_request(old(self)@.desired_workers(None), allocation),
        ensures
            final(self).wf(),
            old(self)@.control.started ==> {
                &&& final(self)@ == old(self)@
                &&& match plan {
                    Ok(_) => false,
                    Err(error) => old(self)@.refuses_run(error),
                }
            },
            !old(self)@.control.started ==> match plan {
                Ok(allocation) => {
                    let desired = old(self)@.desired_workers(None);
                    &&& answers_request(desired, allocation)
                    &&& exists|nanos: usize| {
                        &&& #[trigger] call_ensures(acquire, (desired,), (allocation, nanos))
                        &&& final(self)@ == old(self)@.run_begun().roles_acquired(
                            desired,
                            Some(allocation),
                            nanos,
                        )
                    }
                },
                Err(_) => false,
            },
    {
        self.parallel_execute(None, acquire)
    }

    /// Begins the only run of this scheduler unless the caller asks to stop before any work. A
    /// stopped run, or one whose wait for roles was interrupted, has no roles.
    pub fn execute_with_cancellation<
        C: FnOnce() -> bool,
        A: FnOnce(Option<usize>) -> (Option<ExecutionAllocation>, usize),
    >(&mut self, cancellation: C, acquire: A) -> (plan: Result<
        Option<ExecutionAllocation>,
        GrevmError<E>,
    >)
        requires
            old(self).wf(),
            old(self)@.config.tuning().concurrency_level > 0,
            call_requires(cancellation, ()),
            call_requires(acquire, (old(self)@.desired_workers(None),)),
            forall|allocation: ExecutionAllocation, nanos: usize| #[trigger]
                call_ensures(
                    acquire,
                    (old(self)@.desired_workers(None),),
                    (Some(allocation), nanos),
                ) ==> answers_request(old(self)@.desired_workers(None), allocation),
        ensures
            final(self).wf(),
            old(self)@.control.started ==> {
                &&& final(self)@ == old(self)@
                &&& match plan {
                    Ok(_) => false,
                    Err(error) => old(self)@.refuses_run(error),
                }
            },
            !old(self)@.control.started ==> match plan {
                Err(_) => false,
                Ok(allocation) => {
                    let begun = old(self)@.run_begun();
                    let desired = old(self)@.desired_workers(None);
                    ||| {
                        &&& old(self)@.control.aborted
                        &&& allocation is None
                        &&& final(self)@ == begun
                    }
                    ||| {
                        &&& !old(self)@.control.aborted
                        &&& call_ensures(cancellation, (), true)
                        &&& allocation is None
                        &&& final(self)@ == begun.interrupted()
                    }
                    ||| {
                        &&& !old(self)@.control.aborted
                        &&& call_ensures(cancellation, (), false)
                        &&& allocation matches Some(granted) ==> answers_request(desired, granted)
                        &&& exists|nanos: usize| {
                            &&& #[trigger] call_ensures(acquire, (desired,), (allocation, nanos))
                            &&& final(self)@ == begun.roles_acquired(desired, allocation, nanos)
                        }
                    }
                },
            },
    {
        match self.run_once() {
            Err(error) => Err(error),
            Ok(()) => {
                if self.should_abort(cancellation) {
                    return Ok(None);
                }
                let desired: Option<usize> = self.desired_workers(None);
                let (allocation, nanos) = acquire(desired);
                self.record_roles(desired, &allocation, nanos);
                Ok(allocation)
            },
        }
    }
}

impl<S, R, E: Clone> Scheduler<S, R, E> {
    /// Ends a run whose committed prefix has length `committed`. `committed` is the authoritative
    /// boundary; the cause of a stop selects whether the rest is replayed sequentially or an
    /// unrecoverable error is returned.
    pub fn post_execute<
        T: Fn(TxId, S) -> (Result<ExecutionResult, EVMError<E>>, S),
        C: Fn() -> bool,
    >(&mut self, committed: usize, transact: &T, cancelled: &C) -> (result: Result<
        (),
        GrevmError<E>,
    >)
        requires
            old(self).wf(),
            forall|txid: TxId, state: S|
                committed <= txid < old(self)@.states.len() ==> #[trigger] call_requires(
                    *transact,
                    (txid, state),
                ),
            call_requires(*cancelled, ()),
        ensures
            final(self).wf(),
            old(self)@.control.aborted ==> recovered(
                old(self)@,
                final(self)@,
                committed,
                *transact,
                *cancelled,
                result,
            ),
            !old(self)@.control.aborted ==> {
                ||| call_ensures(*cancelled, (), false) && result is Ok && final(self)@ == old(
                    self,
                )@
                ||| call_ensures(*cancelled, (), true) && recovered(
                    old(self)@.interrupted(),
                    final(self)@,
                    committed,
                    *transact,
                    *cancelled,
                    result,
                )
            },
    {
        let stop: bool = if self.is_aborted() {
            true
        } else {
            let requested: bool = cancelled();
            self.poll_cancellation(requested)
        };
        if !stop {
            return Ok(());
        }
        match self.abort_reason() {
            Some(AbortReason::FatalEvmError(txid)) => {
                let txid: TxId = *txid;
                if txid < self.block_size() {
                    if let Some(tx_result) = self.tx_result(txid) {
                        if let Err(error) = &tx_result.execute_result {
                            return Err(GrevmError { txid, error: copy_error(error) });
                        }
                    }
                }
                // Losing the execution error is itself a parallel scheduler inconsistency. The
                // committed prefix remains authoritative, so replay the suffix.
                self.replay_uncommitted_suffix(committed, transact, cancelled)
            },
            Some(AbortReason::CommitError(error)) => Err(error.clone()),
            Some(AbortReason::Cancelled) => Err(GrevmError::cancelled(self.reported_at(committed))),
            _ => self.replay_uncommitted_suffix(committed, transact, cancelled),
        }
    }
}

impl<S, R, E> Scheduler<S, R, E> {
    /// Execute the whole block sequentially, as the only run of this scheduler.
    pub fn fallback_sequential<
        T: Fn(TxId, S) -> (Result<ExecutionResult, EVMError<E>>, S),
        C: Fn() -> bool,
    >(&mut self, transact: &T, cancelled: &C) -> (result: Result<(), GrevmError<E>>)
        requires
            old(self).wf(),
            forall|txid: TxId, state: S|
                txid < old(self)@.states.len() ==> #[trigger] call_requires(
                    *transact,
                    (txid, state),
                ),
            call_requires(*cancelled, ()),
        ensures
            final(self).wf(),
            old(self)@.control.started ==> {
                &&& final(self)@ == old(self)@
                &&& match result {
                    Ok(_) => false,
                    Err(error) => old(self)@.refuses_run(error),
                }
            },
            !old(self)@.control.started ==> replayed(
                old(self)@.run_begun(),
                final(self)@,
                0,
                *transact,
                *cancelled,
                result,
            ),
    {
        match self.run_once() {
            Err(error) => Err(error),
            Ok(()) => self.replay_uncommitted_suffix(0, transact, cancelled),
        }
    }

    /// Tells an interruption apart from a failure: the flag proves that a caller asked to stop,
    /// and the marker that this particular error is the cancellation rather than a failure that
    /// raced with it.
    pub fn execute_with_typed_cancellation(
        &self,
        result: Result<(), GrevmError<E>>,
    ) -> (status: Result<(), SchedulerExecutionError<E>>)
        ensures
            status == (match result {
                Ok(_) => if self@.control.interrupted {
                    Err(SchedulerExecutionError::Interrupted)
                } else {
                    Ok(())
                },
                Err(error) => if self@.control.interrupted && error.cancelled_spec() {
                    Err(SchedulerExecutionError::Interrupted)
                } else {
                    Err(SchedulerExecutionError::Failed(error))
                },
            }),
    {
        let interrupted: bool = self.is_interrupted();
        match result {
            Ok(()) => {
                if interrupted {
                    Err(SchedulerExecutionError::Interrupted)
                } else {
                    Ok(())
                }
            },
            Err(error) => {
                if interrupted && error.is_cancelled() {
                    Err(SchedulerExecutionError::Interrupted)
                } else {
                    Err(SchedulerExecutionError::Failed(error))
                }
            },
        }
    }
}

/// The first cause of a stop is the one that stays, whatever comes after it.
pub proof fn law_first_abort_reason_wins<E>(
    control: ControlView<E>,
    first: AbortReason<E>,
    second: AbortReason<E>,
)
    requires
        control.reason is None,
    ensures
        control.aborted_for(first).reason == Some(first),
        control.aborted_for(first).aborted_for(second).reason == Some(first),
        control.aborted_for(first).aborted_for(second).aborted,
{
}

/// A stop wakes both sleeping roles and leaves neither slot armed.
pub proof fn law_abort_wakes_every_role<E>(control: ControlView<E>, reason: AbortReason<E>)
    ensures
        ({
            let after = control.aborted_for(reason);
            &&& after.finality_wait.state.value == crate::wait::IDLE
            &&& after.commit_wait.state.value == crate::wait::IDLE
            &&& control.finality_wait.state.value == crate::wait::PARKED ==> after.wakes.finality
            &&& control.commit_wait.state.value == crate::wait::PARKED ==> after.wakes.commit
        }),
{
}

} // verus!
