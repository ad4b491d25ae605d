//! Finality steps: which validated transactions can no longer change.

use crate::context::ContextView;
use crate::metrics::ExecuteMetricsCollector;
use crate::model::{TransactionStatus, TxState};
use crate::scheduler::Scheduler;
use crate::scheduler_view::SchedulerView;
use vstd::prelude::*;

verus! {

broadcast use Scheduler::lemma_wf;

/// What one round of the finality role did.
#[derive(Debug, PartialEq, Eq)]
pub enum FinalityStep {
    /// The block is finished or the run was stopped.
    Done,
    /// Transactions became final; per transaction with a dependency, how far back it lies.
    Progressed {
        /// The distances, in block order.
        distances: Vec<usize>,
    },
    /// The next transaction cannot become final yet.
    Blocked,
}

/// The later of two timestamps.
pub open spec fn later(a: usize, b: usize) -> usize {
    if a >= b {
        a
    } else {
        b
    }
}

impl<S, R, E> SchedulerView<S, R, E> {
    /// If the next transaction can become final, the latest roll-back that concerns it: it is
    /// validated, validation has passed it, and the validation began after every roll-back to it
    /// or to a transaction before it.
    pub open spec fn finality_candidate(self) -> Option<usize> {
        let txid = self.ctx.finality;
        if txid >= self.states.len() || txid >= self.ctx.validation || self.states[txid].status
            != TransactionStatus::Unconfirmed {
            None
        } else {
            let lower = later(self.finality_lower, self.ctx.lower[txid]);
            if self.ctx.unconfirmed[txid] > lower {
                Some(lower)
            } else {
                None
            }
        }
    }

    /// The counters after a transaction became final.
    pub open spec fn finality_counted(self, state: TxState) -> ExecuteMetricsCollector {
        let metrics = self.metrics;
        ExecuteMetricsCollector {
            conflict_txs: if state.incarnation > 1 {
                metrics.conflict_txs.plus(1)
            } else {
                metrics.conflict_txs
            },
            one_attempt_with_dependency: if state.dependency is Some && state.incarnation == 1 {
                metrics.one_attempt_with_dependency.plus(1)
            } else {
                metrics.one_attempt_with_dependency
            },
            more_attempts_with_dependency: if state.dependency is Some && state.incarnation > 2 {
                metrics.more_attempts_with_dependency.plus(1)
            } else {
                metrics.more_attempts_with_dependency
            },
            no_dependency_txs: if state.dependency is None {
                metrics.no_dependency_txs.plus(1)
            } else {
                metrics.no_dependency_txs
            },
            ..metrics
        }
    }

    /// After the next transaction became final.
    pub open spec fn finalized_next(self) -> SchedulerView<S, R, E> {
        let txid = self.ctx.finality;
        SchedulerView {
            states: self.states.update(
                txid,
                TxState { status: TransactionStatus::Finality, ..self.states[txid] },
            ),
            ctx: ContextView { finality: txid + 1, ..self.ctx },
            finality_lower: self.finality_candidate()->0,
            metrics: self.finality_counted(self.states[txid]),
            ..self
        }
    }

    /// After every transaction that can become final in a row did.
    pub open spec fn finalized(self) -> SchedulerView<S, R, E>
        decreases self.states.len() - self.ctx.finality,
    {
        if self.ctx.finality >= 0 && self.finality_candidate() is Some {
            self.finalized_next().finalized()
        } else {
            self
        }
    }

    /// How far back the dependencies lie of the transactions that become final in a row.
    pub open spec fn finalized_distances(self) -> Seq<usize>
        decreases self.states.len() - self.ctx.finality,
    {
        if self.ctx.finality >= 0 && self.finality_candidate() is Some {
            let rest = self.finalized_next().finalized_distances();
            match self.states[self.ctx.finality].dependency {
                Some(dep) => seq![(self.ctx.finality - dep) as usize] + rest,
                None => rest,
            }
        } else {
            Seq::empty()
        }
    }

    /// After one round of the finality role.
    pub open spec fn finality_round(self) -> SchedulerView<S, R, E> {
        let after = self.finalized();
        if after.ctx.finality > self.ctx.finality {
            SchedulerView { control: after.control.commit_notified(), ..after }
        } else {
            after
        }
    }
}

/// Finality only moves forward and never past the block.
pub proof fn lemma_finalized<S, R, E>(view: SchedulerView<S, R, E>)
    requires
        0 <= view.ctx.finality <= view.states.len(),
    ensures
        view.ctx.finality <= view.finalized().ctx.finality <= view.states.len(),
        view.finalized().states.len() == view.states.len(),
        view.finalized().control == view.control,
        view.finality_candidate() is Some ==> view.finalized().ctx.finality > view.ctx.finality,
    decreases view.states.len() - view.ctx.finality,
{
    if view.finality_candidate() is Some {
        lemma_finalized(view.finalized_next());
    }
}

impl<S, R, E> Scheduler<S, R, E> {
    /// Whether the next transaction can become final, and the latest roll-back that concerns it.
    pub fn lock_finality_candidate(&self) -> (candidate: Option<usize>)
        requires
            self.wf(),
        ensures
            candidate == self@.finality_candidate(),
    {
        let finality_idx: usize = self.context().finality_idx();
        if finality_idx >= self.block_size() || finality_idx >= self.context().validation_idx() {
            return None;
        }
        if self.tx_state(finality_idx).status != TransactionStatus::Unconfirmed {
            return None;
        }
        // Rolling back validation makes this and every later finality timestamp logically newer.
        let lower_ts: usize = self.finality_lower();
        let own_lower_ts: usize = self.context().lower_timestamp(finality_idx);
        let effective_lower_ts: usize = if lower_ts >= own_lower_ts {
            lower_ts
        } else {
            own_lower_ts
        };
        if self.context().unconfirmed_timestamp(finality_idx) > effective_lower_ts {
            Some(effective_lower_ts)
        } else {
            None
        }
    }

    /// Whether the finality role has to wait: nothing told it to stop, and the next transaction
    /// cannot become final.
    pub fn finality_blocked(&self) -> (blocked: bool)
        requires
            self.wf(),
        ensures
            blocked == (!self@.control.aborted && self@.finality_candidate() is None),
            self@.ctx.finality < self@.states.len() ==> (blocked <==> !self@.control.aborted && {
                let next = self@.ctx.finality;
                ||| self@.states[next].status != TransactionStatus::Unconfirmed
                ||| self@.ctx.validation <= next
                ||| self@.ctx.unconfirmed[next] <= self@.ctx.lower[next]
                ||| self@.ctx.unconfirmed[next] <= self@.finality_lower
            }),
    {
        !self.is_aborted() && self.lock_finality_candidate().is_none()
    }

    /// Makes the next transaction final and returns how far back its dependency lies.
    fn finalize_next(&mut self, effective_lower_ts: usize) -> (distance: Option<usize>)
        requires
            old(self).wf(),
            old(self)@.finality_candidate() == Some(effective_lower_ts),
        ensures
            final(self).wf(),
            final(self)@ == old(self)@.finalized_next(),
            distance == (match old(self)@.states[old(self)@.ctx.finality].dependency {
                Some(dep) => Some((old(self)@.ctx.finality - dep) as usize),
                None => None,
            }),
    {
        let finality_idx: usize = self.context().finality_idx();
        let tx_state = self.tx_state(finality_idx);
        self.set_state(
            finality_idx,
            TxState {
                status: TransactionStatus::Finality,
                incarnation: tx_state.incarnation,
                dependency: tx_state.dependency,
            },
        );
        self.publish_finality(finality_idx + 1, effective_lower_ts);
        let mut metrics = self.metrics();
        if tx_state.incarnation > 1 {
            metrics.conflict_txs.increment();
        }
        let distance: Option<usize> = match tx_state.dependency {
            Some(dep_id) => {
                if tx_state.incarnation == 1 {
                    metrics.one_attempt_with_dependency.increment();
                } else if tx_state.incarnation > 2 {
                    metrics.more_attempts_with_dependency.increment();
                }
                Some(finality_idx - dep_id)
            },
            None => {
                metrics.no_dependency_txs.increment();
                None
            },
        };
        self.set_metrics(metrics);
        distance
    }

    /// One round of the finality role: makes transactions final in block order for as long as the
    /// next one can become final, and wakes the commit role as soon as there is one.
    pub fn async_finality(&mut self) -> (step: FinalityStep)
        requires
            old(self).wf(),
        ensures
            final(self).wf(),
            ({
                let before = old(self)@;
                if before.control.aborted || before.ctx.finality == before.states.len() {
                    &&& step is Done
                    &&& final(self)@ == before
                } else {
                    &&& final(self)@ == before.finality_round()
                    &&& match step {
                        FinalityStep::Done => false,
                        FinalityStep::Progressed { distances } => {
                            &&& before.finality_candidate() is Some
                            &&& distances@ == before.finalized_distances()
                        },
                        FinalityStep::Blocked => before.finality_candidate() is None,
                    }
                }
            }),
            step is Done <==> old(self)@.control.aborted || old(self)@.ctx.finality
                == old(self)@.states.len(),
            step is Progressed <==> final(self)@.ctx.finality > old(self)@.ctx.finality,
            ({
                let before = old(self)@;
                let next = before.ctx.finality;
                !before.control.aborted && next < before.states.len() ==> (step is Progressed <==> {
                    &&& before.states[next].status == TransactionStatus::Unconfirmed
                    &&& next < before.ctx.validation
                    &&& before.ctx.unconfirmed[next] > before.ctx.lower[next]
                    &&& before.ctx.unconfirmed[next] > before.finality_lower
                })
            }),
    {
        if self.is_aborted() || self.context().finished() {
            return FinalityStep::Done;
        }
        let ghost before = self@;
        let previous_finality_idx: usize = self.context().finality_idx();
        let mut distances: Vec<usize> = Vec::new();
        let mut candidate: Option<usize> = self.lock_finality_candidate();
        proof {
            lemma_finalized(before);
        }
        while candidate.is_some()
            invariant
                self.wf(),
                self@.states.len() == before.states.len(),
                candidate == self@.finality_candidate(),
                previous_finality_idx == before.ctx.finality,
                before.ctx.finality <= self@.ctx.finality,
                ({
                    let notified = SchedulerView { control: before.control, ..self@ };
                    &&& notified.finalized() == before.finalized()
                    &&& before.finalized_distances() == distances@ + notified.finalized_distances()
                }),
                self@.control == (if self@.ctx.finality > before.ctx.finality {
                    before.control.commit_notified()
                } else {
                    before.control
                }),
                self@.ctx.finality == before.ctx.finality ==> self@ == before,
            decreases self@.states.len() - self@.ctx.finality,
        {
            if let Some(effective_lower_ts) = candidate {
                let ghost current = self@;
                let first: bool = self.context().finality_idx() == previous_finality_idx;
                let distance: Option<usize> = self.finalize_next(effective_lower_ts);
                if first {
                    // Start commit as soon as the first transaction in this batch is visible.
                    self.notify_commit();
                }
                proof {
                    let view = SchedulerView { control: before.control, ..current };
                    assert(view.finality_candidate() == current.finality_candidate());
                    assert(view.finalized_next() == (SchedulerView {
                        control: before.control,
                        ..self@
                    }));
                }
                if let Some(distance) = distance {
                    distances.push(distance);
                }
                proof {
                    let view = SchedulerView { control: before.control, ..current };
                    assert(before.finalized_distances() =~= distances@
                        + view.finalized_next().finalized_distances());
                }
            }
            candidate = self.lock_finality_candidate();
        }
        let finality_idx: usize = self.context().finality_idx();
        proof {
            let view = SchedulerView { control: before.control, ..self@ };
            assert(view.finality_candidate() is None);
            assert(before.finalized() == view);
            assert(before.finalized_distances() =~= distances@);
        }
        if finality_idx > previous_finality_idx {
            if finality_idx - previous_finality_idx > 1 {
                // Commit may have caught the first notification while this batch was still
                // publishing. Wake it once more for the completed suffix.
                self.notify_commit();
            }
            FinalityStep::Progressed { distances }
        } else {
            FinalityStep::Blocked
        }
    }
}

} // verus!
