//! How finality, commit and validation move on, told by statuses, cursors and timestamps.

use crate::commit::CommitOutcome;
use crate::finality::lemma_finalized;
use crate::model::{AbortReason, Task, TransactionStatus, TxState};
use crate::scheduler_view::SchedulerView;
use crate::tx_dependency::TxId;
use vstd::prelude::*;

verus! {

/// The transaction is confirmed for good: it was validated, validation has passed it, and its last
/// validation began after every roll-back to it or to a transaction before it.
pub open spec fn confirmed_for_good<S, R, E>(view: SchedulerView<S, R, E>, txid: int) -> bool {
    &&& view.states[txid].status == TransactionStatus::Unconfirmed
    &&& txid < view.ctx.validation
    &&& view.finality_lower < view.ctx.unconfirmed[txid]
    &&& forall|r: int|
        0 <= r <= txid ==> #[trigger] view.ctx.lower[r] < view.ctx.unconfirmed[txid]
}

/// A round of the finality role makes every transaction final up to the first one that is not
/// confirmed for good: where all in a row from the finality index on are, the index moves past
/// them.
pub proof fn law_confirmed_transactions_become_final<S, R, E>(
    before: SchedulerView<S, R, E>,
    end: int,
)
    requires
        0 <= before.ctx.finality <= end <= before.states.len(),
        forall|t: int|
            before.ctx.finality <= t < end ==> #[trigger] confirmed_for_good(before, t),
    ensures
        before.finality_round().ctx.finality >= end,
        before.ctx.finality < end ==> before.finality_round().ctx.finality > before.ctx.finality,
    decreases end - before.ctx.finality,
{
    lemma_finalized(before);
    let first = before.ctx.finality;
    if first < end {
        assert(confirmed_for_good(before, first));
        assert(before.ctx.lower[first] < before.ctx.unconfirmed[first]);
        let next = before.finalized_next();
        assert forall|t: int| next.ctx.finality <= t < end implies #[trigger] confirmed_for_good(
            next,
            t,
        ) by {
            assert(confirmed_for_good(before, t));
            assert(before.ctx.lower[first] < before.ctx.unconfirmed[t]);
            assert forall|r: int| 0 <= r <= t implies #[trigger] next.ctx.lower[r]
                < next.ctx.unconfirmed[t] by {
                assert(before.ctx.lower[r] < before.ctx.unconfirmed[t]);
            }
        }
        law_confirmed_transactions_become_final(next, end);
        assert(before.finalized() == next.finalized());
        lemma_finalized(next);
    }
}

/// A block whose transactions are all confirmed for good is final after one round.
pub proof fn law_confirmed_block_is_final_after_one_round<S, R, E>(before: SchedulerView<S, R, E>)
    requires
        0 <= before.ctx.finality <= before.states.len(),
        forall|t: int|
            before.ctx.finality <= t < before.states.len() ==> #[trigger] confirmed_for_good(
                before,
                t,
            ),
    ensures
        before.finality_round().ctx.finality == before.states.len(),
        forall|t: int|
            before.ctx.finality <= t < before.states.len() ==> (
            #[trigger] before.finality_round().states[t]).status == TransactionStatus::Finality,
{
    law_confirmed_transactions_become_final(before, before.states.len() as int);
    lemma_finalized(before);
    law_round_makes_a_run_final(before);
    let after = before.finality_round();
    assert forall|t: int| before.ctx.finality <= t < before.states.len() implies (
    #[trigger] after.states[t]).status == TransactionStatus::Finality by {
        assert(before.states[t].status == TransactionStatus::Unconfirmed);
    }
}

/// A transaction that is not validated, that validation has not passed, or whose validation began
/// no later than a roll-back that concerns it does not become final: where the next one is like
/// this, a round changes nothing.
pub proof fn law_unconfirmed_transaction_blocks_finality<S, R, E>(before: SchedulerView<S, R, E>)
    requires
        0 <= before.ctx.finality < before.states.len(),
        ({
            let next = before.ctx.finality;
            ||| before.states[next].status != TransactionStatus::Unconfirmed
            ||| before.ctx.validation <= next
            ||| before.ctx.unconfirmed[next] <= before.finality_lower
            ||| before.ctx.unconfirmed[next] <= before.ctx.lower[next]
        }),
    ensures
        before.finality_round() == before,
{
}

/// What a round of the finality role does: exactly the transactions between the old and the new
/// finality index turn from validated into final, the roll-backs that concern them are remembered,
/// the commit role is notified if there are any, and nothing else changes but counters.
pub proof fn law_round_makes_a_run_final<S, R, E>(before: SchedulerView<S, R, E>)
    requires
        0 <= before.ctx.finality <= before.states.len(),
    ensures
        ({
            let after = before.finality_round();
            &&& before.ctx.finality <= after.ctx.finality <= before.states.len()
            &&& after.states.len() == before.states.len()
            &&& forall|t: int|
                before.ctx.finality <= t < after.ctx.finality ==> {
                    &&& (#[trigger] before.states[t]).status == TransactionStatus::Unconfirmed
                    &&& t < before.ctx.validation
                    &&& after.states[t].status == TransactionStatus::Finality
                    &&& after.states[t].incarnation == before.states[t].incarnation
                    &&& after.states[t].dependency == before.states[t].dependency
                    &&& before.ctx.lower[t] < before.ctx.unconfirmed[t]
                    &&& before.finality_lower < before.ctx.unconfirmed[t]
                    &&& before.ctx.lower[t] <= after.finality_lower
                }
            &&& forall|t: int|
                0 <= t < before.states.len() && !(before.ctx.finality <= t < after.ctx.finality)
                    ==> #[trigger] after.states[t] == before.states[t]
            &&& before.finality_lower <= after.finality_lower
            &&& after.finality_lower == before.finality_lower || exists|t: int|
                before.ctx.finality <= t < after.ctx.finality && after.finality_lower
                    == #[trigger] before.ctx.lower[t]
            &&& after.ctx.validation == before.ctx.validation
            &&& after.ctx.committed == before.ctx.committed
            &&& after.ctx.frontier == before.ctx.frontier
            &&& after.ctx.clock == before.ctx.clock
            &&& after.ctx.lower == before.ctx.lower
            &&& after.ctx.unconfirmed == before.ctx.unconfirmed
            &&& after.state == before.state
            &&& after.config == before.config
            &&& after.outcomes == before.outcomes
            &&& after.results == before.results
            &&& after.memory == before.memory
            &&& after.starts == before.starts
            &&& after.control == if after.ctx.finality > before.ctx.finality {
                before.control.commit_notified()
            } else {
                before.control
            }
        }),
{
    lemma_round(before);
    lemma_finalized(before);
}

/// What making transactions final in a row does.
proof fn lemma_round<S, R, E>(before: SchedulerView<S, R, E>)
    requires
        0 <= before.ctx.finality <= before.states.len(),
    ensures
        ({
            let after = before.finalized();
            &&& before.ctx.finality <= after.ctx.finality <= before.states.len()
            &&& after.states.len() == before.states.len()
            &&& forall|t: int|
                before.ctx.finality <= t < after.ctx.finality ==> {
                    &&& (#[trigger] before.states[t]).status == TransactionStatus::Unconfirmed
                    &&& t < before.ctx.validation
                    &&& after.states[t].status == TransactionStatus::Finality
                    &&& after.states[t].incarnation == before.states[t].incarnation
                    &&& after.states[t].dependency == before.states[t].dependency
                    &&& before.ctx.lower[t] < before.ctx.unconfirmed[t]
                    &&& before.finality_lower < before.ctx.unconfirmed[t]
                    &&& before.ctx.lower[t] <= after.finality_lower
                }
            &&& forall|t: int|
                0 <= t < before.states.len() && !(before.ctx.finality <= t < after.ctx.finality)
                    ==> #[trigger] after.states[t] == before.states[t]
            &&& before.finality_lower <= after.finality_lower
            &&& after.finality_lower == before.finality_lower || exists|t: int|
                before.ctx.finality <= t < after.ctx.finality && after.finality_lower
                    == #[trigger] before.ctx.lower[t]
            &&& after.ctx.validation == before.ctx.validation
            &&& after.ctx.committed == before.ctx.committed
            &&& after.ctx.frontier == before.ctx.frontier
            &&& after.ctx.clock == before.ctx.clock
            &&& after.ctx.lower == before.ctx.lower
            &&& after.ctx.unconfirmed == before.ctx.unconfirmed
            &&& after.state == before.state
            &&& after.config == before.config
            &&& after.outcomes == before.outcomes
            &&& after.results == before.results
            &&& after.memory == before.memory
            &&& after.starts == before.starts
            &&& after.control == before.control
        }),
    decreases before.states.len() - before.ctx.finality,
{
    if before.finality_candidate() is Some {
        let first = before.ctx.finality;
        let next = before.finalized_next();
        lemma_round(next);
        let after = next.finalized();
        assert(before.finalized() == after);
        assert forall|t: int| first <= t < after.ctx.finality implies {
            &&& (#[trigger] before.states[t]).status == TransactionStatus::Unconfirmed
            &&& t < before.ctx.validation
            &&& after.states[t].status == TransactionStatus::Finality
            &&& after.states[t].incarnation == before.states[t].incarnation
            &&& after.states[t].dependency == before.states[t].dependency
            &&& before.ctx.lower[t] < before.ctx.unconfirmed[t]
            &&& before.finality_lower < before.ctx.unconfirmed[t]
            &&& before.ctx.lower[t] <= after.finality_lower
        } by {
            if t > first {
                assert(next.states[t] == before.states[t]);
                assert(next.ctx.lower[t] <= after.finality_lower);
            } else {
                assert(after.states[t] == next.states[t]);
            }
        }
        assert forall|t: int|
            0 <= t < before.states.len() && !(first <= t
                < after.ctx.finality) implies #[trigger] after.states[t] == before.states[t] by {
            assert(after.states[t] == next.states[t]);
        }
        if after.finality_lower != before.finality_lower {
            if after.finality_lower == next.finality_lower {
                assert(after.finality_lower == before.ctx.lower[first]);
            } else {
                let t = choose|t: int|
                    next.ctx.finality <= t < after.ctx.finality && after.finality_lower
                        == #[trigger] next.ctx.lower[t];
                assert(after.finality_lower == before.ctx.lower[t]);
            }
        }
    }
}

/// How a transaction that becomes final is counted: as conflicting if it was started more than
/// once; by whether it depended on another one; and, if it did, as one that needed one attempt or
/// more than two.
pub proof fn law_final_transaction_is_counted<S, R, E>(before: SchedulerView<S, R, E>)
    requires
        0 <= before.ctx.finality < before.states.len(),
    ensures
        ({
            let state = before.states[before.ctx.finality];
            let old_metrics = before.metrics;
            let metrics = before.finalized_next().metrics;
            &&& metrics.conflict_txs == if state.incarnation > 1 {
                old_metrics.conflict_txs.plus(1)
            } else {
                old_metrics.conflict_txs
            }
            &&& metrics.no_dependency_txs == if state.dependency is None {
                old_metrics.no_dependency_txs.plus(1)
            } else {
                old_metrics.no_dependency_txs
            }
            &&& metrics.one_attempt_with_dependency == if state.dependency is Some
                && state.incarnation == 1 {
                old_metrics.one_attempt_with_dependency.plus(1)
            } else {
                old_metrics.one_attempt_with_dependency
            }
            &&& metrics.more_attempts_with_dependency == if state.dependency is Some
                && state.incarnation > 2 {
                old_metrics.more_attempts_with_dependency.plus(1)
            } else {
                old_metrics.more_attempts_with_dependency
            }
            &&& metrics.execution_cnt == old_metrics.execution_cnt
            &&& metrics.validation_cnt == old_metrics.validation_cnt
            &&& metrics.conflict_cnt == old_metrics.conflict_cnt
        }),
{
}

/// The distances that a round reports are those of the transactions that became final with a
/// dependency, one each and in block order: `places` says which transaction each belongs to.
pub proof fn law_round_reports_every_distance<S, R, E>(before: SchedulerView<S, R, E>) -> (places:
    Seq<int>)
    requires
        0 <= before.ctx.finality <= before.states.len(),
    ensures
        places.len() == before.finalized_distances().len(),
        forall|i: int, j: int|
            0 <= i < j < places.len() ==> #[trigger] places[i] < #[trigger] places[j],
        forall|i: int|
            0 <= i < places.len() ==> {
                &&& before.ctx.finality <= #[trigger] places[i]
                    < before.finality_round().ctx.finality
                &&& before.states[places[i]].dependency is Some
                &&& before.finalized_distances()[i] == (places[i]
                    - before.states[places[i]].dependency->0) as usize
            },
        forall|t: int|
            before.ctx.finality <= t < before.finality_round().ctx.finality && (
            #[trigger] before.states[t]).dependency is Some ==> places.contains(t),
    decreases before.states.len() - before.ctx.finality,
{
    lemma_finalized(before);
    if before.finality_candidate() is Some {
        let first = before.ctx.finality;
        let next = before.finalized_next();
        lemma_finalized(next);
        let rest = law_round_reports_every_distance(next);
        let tail = next.finalized_distances();
        let places = match before.states[first].dependency {
            Some(_) => seq![first] + rest,
            None => rest,
        };
        let offset: int = if before.states[first].dependency is Some {
            1
        } else {
            0
        };
        assert(before.finalized() == next.finalized());
        assert forall|i: int| 0 <= i < places.len() implies {
            &&& before.ctx.finality <= #[trigger] places[i] < before.finality_round().ctx.finality
            &&& before.states[places[i]].dependency is Some
            &&& before.finalized_distances()[i] == (places[i]
                - before.states[places[i]].dependency->0) as usize
        } by {
            if i >= offset {
                assert(places[i] == rest[i - offset]);
                assert(next.states[rest[i - offset]] == before.states[places[i]]);
                assert(before.finalized_distances()[i] == tail[i - offset]);
            }
        }
        assert forall|i: int, j: int| 0 <= i < j < places.len() implies #[trigger] places[i]
            < #[trigger] places[j] by {
            assert(places[j] == rest[j - offset]);
            if i >= offset {
                assert(places[i] == rest[i - offset]);
            }
        }
        assert forall|t: int|
            before.ctx.finality <= t < before.finality_round().ctx.finality && (
            #[trigger] before.states[t]).dependency is Some implies places.contains(t) by {
            if t == first {
                assert(places[0] == t);
            } else {
                assert(next.states[t] == before.states[t]);
                let k = choose|k: int| 0 <= k < rest.len() && rest[k] == t;
                assert(places[k + offset] == t);
            }
        }
        places
    } else {
        Seq::empty()
    }
}

/// Unless the run was stopped, a final transaction with an output is what the commit role takes
/// next, and taking it changes nothing but that its result is gone.
pub proof fn law_final_output_reaches_the_commit<S, R, E>(before: SchedulerView<S, R, E>)
    requires
        !before.control.aborted,
        0 <= before.ctx.committed < before.ctx.finality <= before.states.len(),
        before.results.len() == before.states.len(),
        before.results[before.ctx.committed] is Some,
        before.results[before.ctx.committed]->0.outcome is Ok,
    ensures
        !before.commit_done(),
        before.commit_pending(),
        before.commit_taken().results == before.results.update(before.ctx.committed, None),
        before.commit_taken() == (SchedulerView {
            results: before.commit_taken().results,
            ..before
        }),
{
}

/// The commit role has nothing to do exactly where the run was stopped or the block is committed,
/// and has to wait exactly where every final transaction is committed.
pub proof fn law_commit_waits_for_finality<S, R, E>(before: SchedulerView<S, R, E>)
    requires
        0 <= before.ctx.committed <= before.ctx.finality <= before.states.len(),
    ensures
        before.commit_done() <==> before.control.aborted || before.ctx.committed
            == before.states.len(),
        before.commit_pending() <==> before.ctx.committed != before.ctx.finality,
{
}

/// A final transaction without an output is taken as an inconsistency: the run is stopped with an
/// error of the scheduler that names the transaction, unless it was stopped for another reason
/// before.
pub proof fn law_missing_output_stops_the_run<S, R, E>(before: SchedulerView<S, R, E>)
    requires
        !before.control.aborted,
        before.control.reason is None,
        0 <= before.ctx.committed < before.ctx.finality <= before.states.len() <= usize::MAX,
        before.results.len() == before.states.len(),
        before.results[before.ctx.committed] is None
            || before.results[before.ctx.committed]->0.outcome is Err,
    ensures
        before.commit_taken().control.aborted,
        before.commit_taken().control.reason is Some,
        before.commit_taken().control.reason->0 matches AbortReason::ParallelError { txid, message }
            && txid == before.ctx.committed && message == (if before.results[before.ctx.committed]
            is None {
            "finalized transaction has no execution result"
        } else {
            "failed transaction reached commit"
        }),
        before.commit_taken().ctx == before.ctx,
        before.commit_taken().outcomes == before.outcomes,
        before.commit_taken().state == before.state,
{
}

/// A transaction counts as committed, with its outcome behind those of the ones before it, exactly
/// when the ordered commit took it; if it was left uncommitted, or committing failed, the run is
/// stopped and the committed prefix is as it was. The state is the one handed back in any case.
pub proof fn law_only_committed_transactions_move_the_prefix<S, R, E>(
    before: SchedulerView<S, R, E>,
    outcome: CommitOutcome<E>,
    state: S,
)
    requires
        0 <= before.ctx.committed < before.states.len() <= usize::MAX,
    ensures
        ({
            let after = before.commit_finished(before.ctx.committed as usize, outcome, state);
            &&& after.state == state
            &&& after.states == before.states
            &&& after.results == before.results
            &&& after.memory == before.memory
            &&& after.ctx.finality == before.ctx.finality
            &&& after.ctx.validation == before.ctx.validation
            &&& match outcome {
                CommitOutcome::Committed { outcome } => {
                    &&& after.outcomes.len() == before.outcomes.len() + 1
                    &&& after.outcomes.last() == outcome
                    &&& after.outcomes.drop_last() == before.outcomes
                    &&& after.ctx.committed == before.ctx.committed + 1
                    &&& after.control == before.control
                },
                CommitOutcome::Fallback => {
                    &&& after.outcomes == before.outcomes
                    &&& after.ctx.committed == before.ctx.committed
                    &&& after.control.aborted
                    &&& before.control.reason is None ==> after.control.reason == Some(
                        AbortReason::<E>::FallbackSequential,
                    )
                },
                CommitOutcome::Failed { error } => {
                    &&& after.outcomes == before.outcomes
                    &&& after.ctx.committed == before.ctx.committed
                    &&& after.control.aborted
                    &&& before.control.reason is None ==> after.control.reason == Some(
                        AbortReason::CommitError(error),
                    )
                },
            }
        }),
{
    let after = before.commit_finished(before.ctx.committed as usize, outcome, state);
    if let CommitOutcome::Committed { outcome } = outcome {
        assert(after.outcomes.drop_last() =~= before.outcomes);
    }
}

/// A worker that looks for work is given the transaction at the validation cursor, as long as it
/// lies before the execution index and has a result to be validated; it is then being validated,
/// and the cursor has moved by one. A transaction without such a result is passed over. At the
/// execution index, or at the end of the block, the cursor stays.
pub proof fn law_results_are_handed_out_for_validation<S, R, E>(
    before: SchedulerView<S, R, E>,
    execution_idx: usize,
)
    requires
        0 <= before.ctx.validation <= before.states.len() <= usize::MAX,
        before.ctx.lower.len() == before.states.len(),
    ensures
        ({
            let next = before.ctx.validation;
            let after = before.validation_claimed(execution_idx);
            let task = before.validation_task(execution_idx);
            if next >= execution_idx || next == before.states.len() {
                &&& task is None
                &&& after == before
            } else {
                let status = before.states[next].status;
                let has_result = status == TransactionStatus::Executed || status
                    == TransactionStatus::Unconfirmed;
                &&& after.ctx.validation == next + 1
                &&& task is Some <==> has_result
                &&& has_result ==> {
                    &&& task->0 matches Task::Validation(version) && version.txid == next
                        && version.incarnation == before.states[next].incarnation
                    &&& after.states[next].status == TransactionStatus::Validating
                    &&& after.states[next].incarnation == before.states[next].incarnation
                    &&& after.states[next].dependency == before.states[next].dependency
                }
                &&& !has_result ==> after.states == before.states
                &&& forall|t: int|
                    0 <= t < before.states.len() && t != next ==> #[trigger] after.states[t]
                        == before.states[t]
                &&& after.ctx.lower == before.ctx.lower
                &&& after.ctx.unconfirmed == before.ctx.unconfirmed
                &&& after.ctx.clock == before.ctx.clock
                &&& after.ctx.finality == before.ctx.finality
                &&& after.results == before.results
                &&& after.memory == before.memory
                &&& after.control == before.control
            }
        }),
{
}

/// A worker that is sent to a transaction executes the next incarnation of it exactly where it was
/// never started or has to be executed again; the transaction is then being executed, and nothing
/// else changes. Sent to any other transaction it has no task, and nothing changes but a counter.
pub proof fn law_waiting_transactions_are_started<S, R, E>(
    before: SchedulerView<S, R, E>,
    txid: TxId,
)
    requires
        txid < before.states.len() <= usize::MAX,
        before.states[txid as int].incarnation < usize::MAX,
    ensures
        ({
            let state = before.states[txid as int];
            let after = before.sent_to(txid);
            let waits = state.status == TransactionStatus::Initial || state.status
                == TransactionStatus::Conflict;
            &&& before.task_at(txid) is Some <==> waits
            &&& before.assignment_at(txid).task == before.task_at(txid)
            &&& waits ==> {
                &&& before.task_at(txid)->0 matches Task::Execution(version) && version.txid == txid
                    && version.incarnation == state.incarnation + 1
                &&& before.assignment_at(txid).update is None
                &&& after.states[txid as int] == (TxState {
                    status: TransactionStatus::Executing,
                    incarnation: (state.incarnation + 1) as usize,
                    dependency: state.dependency,
                })
                &&& after.starts == before.starts + 1
                &&& after.metrics == before.metrics
            }
            &&& !waits ==> {
                &&& before.assignment_at(txid).update matches Some(
                    crate::model::DependencyUpdate::Skip(skipped),
                ) && skipped == txid
                &&& after.states == before.states
                &&& after.starts == before.starts
            }
            &&& forall|t: int|
                0 <= t < before.states.len() && t != txid ==> #[trigger] after.states[t]
                    == before.states[t]
            &&& after.ctx == before.ctx
            &&& after.results == before.results
            &&& after.memory == before.memory
            &&& after.control == before.control
            &&& after.outcomes == before.outcomes
            &&& after.state == before.state
        }),
{
}

/// A scheduler that has not started has no outcomes, no results and no writes; every transaction of
/// the block is untouched, every cursor stands at the start, every counter at zero, and nothing
/// told it to stop. It holds the state and the configuration that it was given.
pub proof fn law_new_scheduler_has_done_nothing<S, R, E>(
    block_size: nat,
    state: S,
    config: crate::config::GrevmConfig,
)
    ensures
        ({
            let view = crate::scheduler::initial_view::<S, R, E>(block_size, state, config);
            &&& view.state == state
            &&& view.config == config
            &&& view.outcomes.len() == 0
            &&& view.states.len() == block_size
            &&& view.results.len() == block_size
            &&& forall|t: int|
                0 <= t < block_size ==> (#[trigger] view.states[t]).status
                    == TransactionStatus::Initial && view.states[t].incarnation == 0
                    && view.states[t].dependency is None
            &&& forall|t: int| 0 <= t < block_size ==> (#[trigger] view.results[t]) is None
            &&& view.memory.cells.len() == 0
            &&& view.memory.ids.dom() == Set::<crate::primitives::Key>::empty()
            &&& view.ctx.validation == 0
            &&& view.ctx.finality == 0
            &&& view.ctx.committed == 0
            &&& view.ctx.frontier == 0
            &&& view.ctx.clock == 1
            &&& view.ctx.lower.len() == block_size
            &&& view.ctx.unconfirmed.len() == block_size
            &&& forall|t: int| 0 <= t < block_size ==> #[trigger] view.ctx.lower[t] == 0
            &&& forall|t: int| 0 <= t < block_size ==> #[trigger] view.ctx.unconfirmed[t] == 0
            &&& view.ctx.resets.0 == 0
            &&& view.finality_lower == 0
            &&& view.starts == 0
            &&& !view.control.started
            &&& !view.control.aborted
            &&& view.control.reason is None
            &&& !view.control.interrupted
            &&& !view.control.wakes.finality
            &&& !view.control.wakes.commit
            &&& !view.control.finality_wait.registered
            &&& !view.control.commit_wait.registered
            &&& view.metrics.execution_time.0 == 0
            &&& forall|i: int|
                0 <= i < view.metrics.samples().len() ==> (#[trigger] view.metrics.samples()[i]).1
                    == 0
        }),
{
}

} // verus!
