//! Commit steps: handing final results to the ordered commit.

use crate::context::ContextView;
use crate::metrics::ExecuteMetricsCollector;
use crate::model::{AbortReason, DependencyUpdate};
use crate::outcome::{GrevmError, TxExecutionOutcome};
use crate::scheduler::Scheduler;
use crate::scheduler_view::SchedulerView;
use crate::tx_dependency::TxId;
use vstd::prelude::*;

verus! {

broadcast use Scheduler::lemma_wf;

/// What the commit role has to do next.
#[derive(Debug, PartialEq, Eq)]
pub enum CommitStep<R> {
    /// The block is committed or the run was stopped.
    Done,
    /// Commit the output of a transaction through [`Scheduler::finish_commit`].
    Commit {
        /// The transaction.
        txid: TxId,
        /// Its final output.
        output: R,
    },
    /// No final transaction is left to be committed.
    Blocked,
}

/// What became of an output that was handed to the ordered commit.
pub enum CommitOutcome<E> {
    /// It is part of the canonical state.
    Committed {
        /// The final outcome of the transaction.
        outcome: TxExecutionOutcome,
    },
    /// It was left uncommitted; the transaction has to be executed again on the committed state.
    Fallback,
    /// Committing failed.
    Failed {
        /// Why.
        error: GrevmError<E>,
    },
}

impl<S, R, E> SchedulerView<S, R, E> {
    /// The commit role has nothing more to do: the run was stopped or the block is committed.
    pub open spec fn commit_done(self) -> bool {
        self.control.aborted || self.ctx.committed == self.states.len()
    }

    /// A final transaction waits to be committed.
    pub open spec fn commit_pending(self) -> bool {
        self.ctx.committed < self.ctx.finality
    }

    /// After the result of the next transaction to be committed was taken.
    pub open spec fn commit_taken(self) -> SchedulerView<S, R, E> {
        let txid = self.ctx.committed;
        let taken = SchedulerView { results: self.results.update(txid, None), ..self };
        match self.results[txid] {
            None => taken.aborted_for(
                AbortReason::ParallelError {
                    txid: txid as usize,
                    message: "finalized transaction has no execution result",
                },
            ),
            Some(result) => if result.outcome is Err {
                taken.aborted_for(
                    AbortReason::ParallelError {
                        txid: txid as usize,
                        message: "failed transaction reached commit",
                    },
                )
            } else {
                taken
            },
        }
    }

    /// After the ordered commit of `txid` handed the state back.
    pub open spec fn commit_finished(
        self,
        txid: TxId,
        outcome: CommitOutcome<E>,
        state: S,
    ) -> SchedulerView<S, R, E> {
        let handed_back = SchedulerView { state, ..self };
        match outcome {
            CommitOutcome::Committed { outcome } => SchedulerView {
                outcomes: self.outcomes.push(outcome),
                ctx: ContextView { committed: txid + 1, ..self.ctx },
                ..handed_back
            },
            CommitOutcome::Fallback => handed_back.aborted_for(AbortReason::FallbackSequential),
            CommitOutcome::Failed { error } => handed_back.aborted_for(
                AbortReason::CommitError(error),
            ),
        }
    }
}

impl<S, R, E> Scheduler<S, R, E> {
    /// Whether the commit role has to wait: nothing told it to stop, and no final transaction is
    /// left to be committed.
    pub fn commit_blocked(&self) -> (blocked: bool)
        requires
            self.wf(),
        ensures
            blocked == (!self@.control.aborted && !self@.commit_pending()),
            blocked <==> !self@.control.aborted && self@.ctx.committed >= self@.ctx.finality,
    {
        !self.is_aborted() && self.context().committed_idx() >= self.context().finality_idx()
    }

    /// One round of the commit role: takes the result of the next final transaction. A final
    /// transaction without a result or with a failed one is an inconsistency that stops the run.
    pub fn async_commit(&mut self) -> (step: CommitStep<R>)
        requires
            old(self).wf(),
        ensures
            final(self).wf(),
            step is Done <==> final(self)@.commit_done(),
            ({
                let before = old(self)@;
                let txid = before.ctx.committed;
                if before.commit_done() {
                    &&& step is Done
                    &&& final(self)@ == before
                } else if !before.commit_pending() {
                    &&& step is Blocked
                    &&& final(self)@ == before
                } else {
                    &&& final(self)@ == before.commit_taken()
                    &&& match before.results[txid] {
                        Some(result) => match result.outcome {
                            Ok(output) => step == (CommitStep::Commit {
                                txid: txid as usize,
                                output,
                            }),
                            Err(_) => step is Done,
                        },
                        None => step is Done,
                    }
                }
            }),
            ({
                let before = old(self)@;
                let next = before.ctx.committed;
                !before.control.aborted && next < before.ctx.finality ==> (step is Commit <==> {
                    &&& before.results[next] is Some
                    &&& before.results[next]->0.outcome is Ok
                })
            }),
            step is Blocked <==> !old(self)@.control.aborted && old(self)@.ctx.finality
                <= old(self)@.ctx.committed < old(self)@.states.len(),
    {
        let commit_idx: usize = self.context().committed_idx();
        if self.is_aborted() || commit_idx >= self.block_size() {
            return CommitStep::Done;
        }
        if commit_idx >= self.context().finality_idx() {
            return CommitStep::Blocked;
        }
        match self.take_result(commit_idx) {
            None => {
                self.abort(
                    AbortReason::ParallelError {
                        txid: commit_idx,
                        message: "finalized transaction has no execution result",
                    },
                );
                CommitStep::Done
            },
            Some(tx_result) => match tx_result.execute_result {
                // A transaction with an EVM error must never reach finality. This is a parallel
                // scheduler inconsistency, so replay it from the committed state instead of
                // trusting the speculative result.
                Err(_) => {
                    self.abort(
                        AbortReason::ParallelError {
                            txid: commit_idx,
                            message: "failed transaction reached commit",
                        },
                    );
                    CommitStep::Done
                },
                Ok(output) => CommitStep::Commit { txid: commit_idx, output },
            },
        }
    }

    /// Commits the output of the next transaction to the canonical state through `commit`, which
    /// gets the state and hands it back. Only a committed transaction moves the committed prefix
    /// and adds its outcome to it; a transaction that was left uncommitted stays at its end, so
    /// that sequential execution begins with it. Returns what the dependency graph has to be told.
    pub fn finish_commit<K: FnOnce(TxId, R, S) -> (CommitOutcome<E>, S)>(
        &mut self,
        txid: TxId,
        output: R,
        commit: K,
    ) -> (update: Option<DependencyUpdate>)
        requires
            old(self).wf(),
            txid == old(self)@.ctx.committed,
            txid < old(self)@.states.len(),
            call_requires(commit, (txid, output, old(self)@.state)),
        ensures
            final(self).wf(),
            exists|outcome: CommitOutcome<E>| {
                &&& #[trigger] call_ensures(
                    commit,
                    (txid, output, old(self)@.state),
                    (outcome, final(self)@.state),
                )
                &&& final(self)@ == old(self)@.commit_finished(
                    txid,
                    outcome,
                    final(self)@.state,
                )
                &&& update == if outcome is Committed {
                    Some(DependencyUpdate::Commit(txid))
                } else {
                    None
                }
            },
    {
        let ghost before = self@;
        let outcome: CommitOutcome<E> = self.commit_with(txid, output, commit);
        let ghost handed_back = self@.state;
        assert(call_ensures(commit, (txid, output, before.state), (outcome, handed_back)));
        let update: Option<DependencyUpdate> = match outcome {
            CommitOutcome::Failed { error } => {
                self.abort(AbortReason::CommitError(error));
                None
            },
            CommitOutcome::Fallback => {
                self.abort(AbortReason::FallbackSequential);
                None
            },
            CommitOutcome::Committed { outcome } => {
                self.push_outcome(outcome);
                self.publish_commit(txid + 1);
                Some(DependencyUpdate::Commit(txid))
            },
        };
        assert(self@ == before.commit_finished(txid, outcome, handed_back));
        assert(self@.state == handed_back);
        update
    }

    /// Adds up how long ordered commits took.
    pub fn record_commit_time(&mut self, nanos: usize)
        requires
            old(self).wf(),
        ensures
            final(self).wf(),
            final(self)@ == (SchedulerView {
                metrics: ExecuteMetricsCollector {
                    commit_time: old(self)@.metrics.commit_time.plus(nanos),
                    ..old(self)@.metrics
                },
                ..old(self)@
            }),
    {
        let mut metrics = self.metrics();
        metrics.commit_time.add(nanos);
        self.set_metrics(metrics);
    }
}

} // verus!
