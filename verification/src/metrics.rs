//! Counters collected while a block is executed.

use crate::atomic::RelaxedUsize;
use vstd::prelude::*;

verus! {

/// One reported measurement.
#[derive(Debug, Clone, Copy, PartialEq, Eq, Structural)]
pub enum Measurement {
    /// Total transactions.
    TotalTxCnt,
    /// Conflict incarnations.
    ConflictCnt,
    /// Validation incarnations.
    ValidationCnt,
    /// Execution incarnations.
    ExecutionCnt,
    /// Validation cursor resets.
    ResetValidationIdxCnt,
    /// Dependency updates without work.
    UselessDependentUpdate,
    /// Coinbase conflicts.
    ConflictByMiner,
    /// EVM error conflicts.
    ConflictByError,
    /// Estimate read conflicts.
    ConflictByEstimate,
    /// Version conflicts.
    ConflictByVersion,
    /// Transactions completed in one dependency attempt.
    OneAttemptWithDependency,
    /// Transactions needing more than two dependency attempts.
    MoreAttemptsWithDependency,
    /// Transactions without dependencies.
    NoDependencyTxs,
    /// Transactions with at least one conflict.
    ConflictTxs,
    /// Time acquiring execution roles in nanoseconds.
    ResourceWaitTime,
    /// Speculative workers granted for the execution.
    ParallelWorkerCnt,
    /// One where a parallel execution was downgraded for want of workers.
    ResourceSequentialFallback,
    /// Parallel execution time in nanoseconds.
    ExecutionTime,
    /// Commit time in nanoseconds.
    CommitTime,
    /// Total time in nanoseconds.
    TotalTime,
}

/// The counters of one block.
#[derive(Debug, Clone, Copy, PartialEq, Eq, Structural)]
pub struct ExecuteMetricsCollector {
    /// Total transactions.
    pub total_tx_cnt: RelaxedUsize,
    /// Conflict incarnations.
    pub conflict_cnt: RelaxedUsize,
    /// Validation incarnations.
    pub validation_cnt: RelaxedUsize,
    /// Execution incarnations.
    pub execution_cnt: RelaxedUsize,
    /// Validation cursor resets.
    pub reset_validation_idx_cnt: RelaxedUsize,
    /// Dependency updates without work.
    pub useless_dependent_update: RelaxedUsize,
    /// Coinbase conflicts.
    pub conflict_by_miner: RelaxedUsize,
    /// EVM error conflicts.
    pub conflict_by_error: RelaxedUsize,
    /// Estimate read conflicts.
    pub conflict_by_estimate: RelaxedUsize,
    /// Version conflicts.
    pub conflict_by_version: RelaxedUsize,
    /// Transactions completed in one dependency attempt.
    pub one_attempt_with_dependency: RelaxedUsize,
    /// Transactions needing more than two dependency attempts.
    pub more_attempts_with_dependency: RelaxedUsize,
    /// Transactions without dependencies.
    pub no_dependency_txs: RelaxedUsize,
    /// Transactions with at least one conflict.
    pub conflict_txs: RelaxedUsize,
    /// Time acquiring execution roles in nanoseconds, with an interrupted wait counted too.
    pub resource_wait_time: RelaxedUsize,
    /// Speculative workers granted for the execution.
    pub parallel_worker_cnt: RelaxedUsize,
    /// One where an eligible parallel execution was downgraded because fewer than two workers
    /// could be allocated.
    pub resource_sequential_fallback: RelaxedUsize,
    /// Parallel execution time in nanoseconds.
    pub execution_time: RelaxedUsize,
    /// Commit time in nanoseconds.
    pub commit_time: RelaxedUsize,
    /// Total time in nanoseconds.
    pub total_time: RelaxedUsize,
}

/// Counters that all stand at zero.
pub open spec fn zero_metrics() -> ExecuteMetricsCollector {
    ExecuteMetricsCollector {
        total_tx_cnt: RelaxedUsize(0),
        conflict_cnt: RelaxedUsize(0),
        validation_cnt: RelaxedUsize(0),
        execution_cnt: RelaxedUsize(0),
        reset_validation_idx_cnt: RelaxedUsize(0),
        useless_dependent_update: RelaxedUsize(0),
        conflict_by_miner: RelaxedUsize(0),
        conflict_by_error: RelaxedUsize(0),
        conflict_by_estimate: RelaxedUsize(0),
        conflict_by_version: RelaxedUsize(0),
        one_attempt_with_dependency: RelaxedUsize(0),
        more_attempts_with_dependency: RelaxedUsize(0),
        no_dependency_txs: RelaxedUsize(0),
        conflict_txs: RelaxedUsize(0),
        resource_wait_time: RelaxedUsize(0),
        parallel_worker_cnt: RelaxedUsize(0),
        resource_sequential_fallback: RelaxedUsize(0),
        execution_time: RelaxedUsize(0),
        commit_time: RelaxedUsize(0),
        total_time: RelaxedUsize(0),
    }
}

impl Default for ExecuteMetricsCollector {
    fn default() -> (metrics: Self)
        ensures
            metrics == zero_metrics(),
    {
        ExecuteMetricsCollector {
            total_tx_cnt: RelaxedUsize(0),
            conflict_cnt: RelaxedUsize(0),
            validation_cnt: RelaxedUsize(0),
            execution_cnt: RelaxedUsize(0),
            reset_validation_idx_cnt: RelaxedUsize(0),
            useless_dependent_update: RelaxedUsize(0),
            conflict_by_miner: RelaxedUsize(0),
            conflict_by_error: RelaxedUsize(0),
            conflict_by_estimate: RelaxedUsize(0),
            conflict_by_version: RelaxedUsize(0),
            one_attempt_with_dependency: RelaxedUsize(0),
            more_attempts_with_dependency: RelaxedUsize(0),
            no_dependency_txs: RelaxedUsize(0),
            conflict_txs: RelaxedUsize(0),
            resource_wait_time: RelaxedUsize(0),
            parallel_worker_cnt: RelaxedUsize(0),
            resource_sequential_fallback: RelaxedUsize(0),
            execution_time: RelaxedUsize(0),
            commit_time: RelaxedUsize(0),
            total_time: RelaxedUsize(0),
        }
    }
}

impl ExecuteMetricsCollector {
    /// The measurements that a block reports, in order; the parallel execution time is reported
    /// only for blocks that have one.
    pub open spec fn samples(self) -> Seq<(Measurement, usize)> {
        let counts = seq![
            (Measurement::TotalTxCnt, self.total_tx_cnt.0),
            (Measurement::ConflictCnt, self.conflict_cnt.0),
            (Measurement::ValidationCnt, self.validation_cnt.0),
            (Measurement::ExecutionCnt, self.execution_cnt.0),
            (Measurement::ResetValidationIdxCnt, self.reset_validation_idx_cnt.0),
            (Measurement::UselessDependentUpdate, self.useless_dependent_update.0),
            (Measurement::ConflictByMiner, self.conflict_by_miner.0),
            (Measurement::ConflictByError, self.conflict_by_error.0),
            (Measurement::ConflictByEstimate, self.conflict_by_estimate.0),
            (Measurement::ConflictByVersion, self.conflict_by_version.0),
            (Measurement::OneAttemptWithDependency, self.one_attempt_with_dependency.0),
            (Measurement::MoreAttemptsWithDependency, self.more_attempts_with_dependency.0),
            (Measurement::NoDependencyTxs, self.no_dependency_txs.0),
            (Measurement::ConflictTxs, self.conflict_txs.0),
            (Measurement::ResourceWaitTime, self.resource_wait_time.0),
            (Measurement::ParallelWorkerCnt, self.parallel_worker_cnt.0),
            (Measurement::ResourceSequentialFallback, self.resource_sequential_fallback.0),
        ];
        let execution = if self.execution_time.0 > 0 {
            seq![(Measurement::ExecutionTime, self.execution_time.0)]
        } else {
            Seq::empty()
        };
        counts + execution + seq![
            (Measurement::CommitTime, self.commit_time.0),
            (Measurement::TotalTime, self.total_time.0),
        ]
    }

    /// Lists the measurements of the block.
    pub fn report(&self) -> (samples: Vec<(Measurement, usize)>)
        ensures
            samples@ == self.samples(),
    {
        let mut samples: Vec<(Measurement, usize)> = Vec::new();
        samples.push((Measurement::TotalTxCnt, self.total_tx_cnt.get()));
        samples.push((Measurement::ConflictCnt, self.conflict_cnt.get()));
        samples.push((Measurement::ValidationCnt, self.validation_cnt.get()));
        samples.push((Measurement::ExecutionCnt, self.execution_cnt.get()));
        samples.push((Measurement::ResetValidationIdxCnt, self.reset_validation_idx_cnt.get()));
        samples.push((Measurement::UselessDependentUpdate, self.useless_dependent_update.get()));
        samples.push((Measurement::ConflictByMiner, self.conflict_by_miner.get()));
        samples.push((Measurement::ConflictByError, self.conflict_by_error.get()));
        samples.push((Measurement::ConflictByEstimate, self.conflict_by_estimate.get()));
        samples.push((Measurement::ConflictByVersion, self.conflict_by_version.get()));
        samples.push(
            (Measurement::OneAttemptWithDependency, self.one_attempt_with_dependency.get()),
        );
        samples.push(
            (Measurement::MoreAttemptsWithDependency, self.more_attempts_with_dependency.get()),
        );
        samples.push((Measurement::NoDependencyTxs, self.no_dependency_txs.get()));
        samples.push((Measurement::ConflictTxs, self.conflict_txs.get()));
        samples.push((Measurement::ResourceWaitTime, self.resource_wait_time.get()));
        samples.push((Measurement::ParallelWorkerCnt, self.parallel_worker_cnt.get()));
        samples.push(
            (Measurement::ResourceSequentialFallback, self.resource_sequential_fallback.get()),
        );
        let execution_time: usize = self.execution_time.get();
        if execution_time > 0 {
            samples.push((Measurement::ExecutionTime, execution_time));
        }
        samples.push((Measurement::CommitTime, self.commit_time.get()));
        samples.push((Measurement::TotalTime, self.total_time.get()));
        assert(samples@ =~= self.samples());
        samples
    }
}

/// A block reports every counter under its own name, each once: all but the parallel execution time
/// in any case, and that one exactly if the block has one.
pub proof fn law_every_counter_is_reported(metrics: ExecuteMetricsCollector)
    ensures
        ({
            let samples = metrics.samples();
            &&& samples.len() == if metrics.execution_time.0 > 0 {
                20nat
            } else {
                19nat
            }
            &&& samples.contains((Measurement::TotalTxCnt, metrics.total_tx_cnt.0))
            &&& samples.contains((Measurement::ConflictCnt, metrics.conflict_cnt.0))
            &&& samples.contains((Measurement::ValidationCnt, metrics.validation_cnt.0))
            &&& samples.contains((Measurement::ExecutionCnt, metrics.execution_cnt.0))
            &&& samples.contains(
                (Measurement::ResetValidationIdxCnt, metrics.reset_validation_idx_cnt.0),
            )
            &&& samples.contains(
                (Measurement::UselessDependentUpdate, metrics.useless_dependent_update.0),
            )
            &&& samples.contains((Measurement::ConflictByMiner, metrics.conflict_by_miner.0))
            &&& samples.contains((Measurement::ConflictByError, metrics.conflict_by_error.0))
            &&& samples.contains((Measurement::ConflictByEstimate, metrics.conflict_by_estimate.0))
            &&& samples.contains((Measurement::ConflictByVersion, metrics.conflict_by_version.0))
            &&& samples.contains(
                (Measurement::OneAttemptWithDependency, metrics.one_attempt_with_dependency.0),
            )
            &&& samples.contains(
                (Measurement::MoreAttemptsWithDependency, metrics.more_attempts_with_dependency.0),
            )
            &&& samples.contains((Measurement::NoDependencyTxs, metrics.no_dependency_txs.0))
            &&& samples.contains((Measurement::ConflictTxs, metrics.conflict_txs.0))
            &&& samples.contains((Measurement::ResourceWaitTime, metrics.resource_wait_time.0))
            &&& samples.contains((Measurement::ParallelWorkerCnt, metrics.parallel_worker_cnt.0))
            &&& samples.contains(
                (Measurement::ResourceSequentialFallback, metrics.resource_sequential_fallback.0),
            )
            &&& metrics.execution_time.0 > 0 ==> samples.contains(
                (Measurement::ExecutionTime, metrics.execution_time.0),
            )
            &&& samples.contains((Measurement::CommitTime, metrics.commit_time.0))
            &&& samples.contains((Measurement::TotalTime, metrics.total_time.0))
        }),
{
    let samples = metrics.samples();
    let behind: int = if metrics.execution_time.0 > 0 {
        18
    } else {
        17
    };
    assert(samples[0] == (Measurement::TotalTxCnt, metrics.total_tx_cnt.0));
    assert(samples[1] == (Measurement::ConflictCnt, metrics.conflict_cnt.0));
    assert(samples[2] == (Measurement::ValidationCnt, metrics.validation_cnt.0));
    assert(samples[3] == (Measurement::ExecutionCnt, metrics.execution_cnt.0));
    assert(samples[4] == (Measurement::ResetValidationIdxCnt, metrics.reset_validation_idx_cnt.0));
    assert(samples[5] == (Measurement::UselessDependentUpdate, metrics.useless_dependent_update.0));
    assert(samples[6] == (Measurement::ConflictByMiner, metrics.conflict_by_miner.0));
    assert(samples[7] == (Measurement::ConflictByError, metrics.conflict_by_error.0));
    assert(samples[8] == (Measurement::ConflictByEstimate, metrics.conflict_by_estimate.0));
    assert(samples[9] == (Measurement::ConflictByVersion, metrics.conflict_by_version.0));
    assert(samples[10] == (
        Measurement::OneAttemptWithDependency,
        metrics.one_attempt_with_dependency.0,
    ));
    assert(samples[11] == (
        Measurement::MoreAttemptsWithDependency,
        metrics.more_attempts_with_dependency.0,
    ));
    assert(samples[12] == (Measurement::NoDependencyTxs, metrics.no_dependency_txs.0));
    assert(samples[13] == (Measurement::ConflictTxs, metrics.conflict_txs.0));
    assert(samples[14] == (Measurement::ResourceWaitTime, metrics.resource_wait_time.0));
    assert(samples[15] == (Measurement::ParallelWorkerCnt, metrics.parallel_worker_cnt.0));
    assert(samples[16] == (
        Measurement::ResourceSequentialFallback,
        metrics.resource_sequential_fallback.0,
    ));
    if metrics.execution_time.0 > 0 {
        assert(samples[17] == (Measurement::ExecutionTime, metrics.execution_time.0));
    }
    assert(samples[behind] == (Measurement::CommitTime, metrics.commit_time.0));
    assert(samples[behind + 1] == (Measurement::TotalTime, metrics.total_time.0));
}

} // verus!
