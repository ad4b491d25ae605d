//! How runs begin, stop and are replayed, told by calls, outcomes and reported errors.

use crate::config::InvalidTransactionPolicy;
use crate::control::recovered;
use crate::fallback::{outcome_of, replayed, sequential_step, stopped_at};
use crate::model::AbortReason;
use crate::outcome::{GrevmError, TxExecutionOutcome};
use crate::prefix::{describes, describes_last};
use crate::scheduler_view::SchedulerView;
use crate::text::decimal;
use crate::tx_dependency::TxId;
use revm_context::result::{EVMError, ExecutionResult};
use vstd::prelude::*;

verus! {

/// The outcome tells what became of a transaction with this result: it was executed with this
/// output, or it was invalid for this reason and skipped.
pub open spec fn tells<E>(
    policy: InvalidTransactionPolicy,
    result: Result<ExecutionResult, EVMError<E>>,
    outcome: TxExecutionOutcome,
) -> bool {
    match outcome {
        TxExecutionOutcome::Executed(output) => result matches Ok(executed) && executed == output,
        TxExecutionOutcome::Skipped(reason) => {
            &&& policy == InvalidTransactionPolicy::Omit || policy
                == InvalidTransactionPolicy::IncludeNoop
            &&& result matches Err(EVMError::Transaction(error)) && error == reason
        },
    }
}

/// Every transaction that executed has an outcome with its output; an invalid one is skipped for
/// its reason, unless the policy is to abort; and any other error, and an invalid transaction under
/// that policy, stops the replay as it is.
pub proof fn law_policy_decides_invalid_transactions<E>(
    policy: InvalidTransactionPolicy,
    result: Result<ExecutionResult, EVMError<E>>,
)
    ensures
        result is Ok ==> outcome_of(policy, result) is Ok,
        result is Err && result->Err_0 is Transaction && policy != InvalidTransactionPolicy::Abort
            ==> outcome_of(policy, result) is Ok,
        result is Err && (!(result->Err_0 is Transaction) || policy
            == InvalidTransactionPolicy::Abort) ==> outcome_of(policy, result) is Err,
        outcome_of(policy, result) matches Ok(outcome) ==> tells(policy, result, outcome),
        outcome_of(policy, result) matches Err(error) ==> result matches Err(reported) && reported
            == error,
        outcome_of(InvalidTransactionPolicy::Omit, result) == outcome_of(
            InvalidTransactionPolicy::IncludeNoop,
            result,
        ),
{
}

/// The transaction was called with the state `before` and handed back `after`, with a result that
/// its outcome tells.
pub open spec fn called<S, E, T: Fn(TxId, S) -> (Result<ExecutionResult, EVMError<E>>, S)>(
    transact: T,
    policy: InvalidTransactionPolicy,
    txid: TxId,
    before: S,
    outcome: TxExecutionOutcome,
    after: S,
) -> bool {
    exists|result: Result<ExecutionResult, EVMError<E>>| #[trigger]
        call_ensures(transact, (txid, before), (result, after)) && tells(policy, result, outcome)
}

/// Outcomes of sequential execution come from calls: there are states, one more than outcomes, from
/// the first to the last, such that each transaction was called with the state before it and handed
/// back the one behind it, with a result that its outcome tells.
pub proof fn law_outcomes_come_from_calls<
    S,
    E,
    T: Fn(TxId, S) -> (Result<ExecutionResult, EVMError<E>>, S),
>(
    transact: T,
    policy: InvalidTransactionPolicy,
    start: int,
    before: S,
    outcomes: Seq<TxExecutionOutcome>,
    after: S,
) -> (states: Seq<S>)
    requires
        describes(sequential_step(transact, policy), start, before, outcomes, after),
    ensures
        states.len() == outcomes.len() + 1,
        states[0] == before,
        states[outcomes.len() as int] == after,
        forall|i: int|
            0 <= i < outcomes.len() ==> called(
                transact,
                policy,
                (start + i) as usize,
                states[i],
                #[trigger] outcomes[i],
                states[i + 1],
            ),
    decreases outcomes.len(),
{
    if outcomes.len() == 0 {
        seq![before]
    } else {
        let step = sequential_step(transact, policy);
        let last = outcomes.len() - 1;
        let middle = choose|middle: S| #[trigger]
            describes_last(
                step,
                (start + outcomes.len() - 1) as usize,
                middle,
                outcomes.last(),
                after,
            ) && describes(step, start, before, outcomes.drop_last(), middle);
        let earlier = law_outcomes_come_from_calls(
            transact,
            policy,
            start,
            before,
            outcomes.drop_last(),
            middle,
        );
        let states = earlier.push(after);
        assert forall|i: int| 0 <= i < outcomes.len() implies called(
            transact,
            policy,
            (start + i) as usize,
            states[i],
            #[trigger] outcomes[i],
            states[i + 1],
        ) by {
            if i < last {
                assert(outcomes.drop_last()[i] == outcomes[i]);
                assert(states[i] == earlier[i]);
                assert(states[i + 1] == earlier[i + 1]);
            } else {
                let result = choose|result: Result<ExecutionResult, EVMError<E>>| {
                    &&& #[trigger] call_ensures(
                        transact,
                        ((start + i) as usize, middle),
                        (result, after),
                    )
                    &&& outcome_of(policy, result) == Ok::<TxExecutionOutcome, EVMError<E>>(
                        outcomes[i],
                    )
                };
                law_policy_decides_invalid_transactions(policy, result);
                assert(tells(policy, result, outcomes[i]));
            }
        }
        states
    }
}

/// A replay that is told a prefix other than the one it holds outcomes of reports that and changes
/// nothing. Any other ends well with an outcome for every transaction, or with an error at the
/// transaction behind the last outcome: an error that a call for it gave and that the policy does
/// not skip, or the caller's wish to stop. It changes the state, the outcomes and the count of
/// executions; where the caller asked to stop it also stops the run; and nothing else.
pub proof fn law_replay_ends_well_or_at_a_failure<
    S,
    R,
    E,
    T: Fn(TxId, S) -> (Result<ExecutionResult, EVMError<E>>, S),
    C: Fn() -> bool,
>(
    before: SchedulerView<S, R, E>,
    after: SchedulerView<S, R, E>,
    committed: usize,
    transact: T,
    cancelled: C,
    result: Result<(), GrevmError<E>>,
)
    requires
        replayed(before, after, committed, transact, cancelled, result),
    ensures
        ({
            let size = before.states.len();
            let fits = committed <= size && before.outcomes.len() == committed;
            &&& !fits ==> {
                &&& after == before
                &&& result is Err
                &&& result->Err_0.error matches EVMError::Custom(message) && message@
                    == "committed prefix mismatch: boundary="@ + decimal(committed as nat)
                    + ", outcomes="@ + decimal(before.outcomes.len()) + ", block_size="@ + decimal(
                    size,
                )
                &&& size > 0 ==> result->Err_0.txid == if committed < size {
                    committed as int
                } else {
                    size - 1
                }
            }
            &&& fits ==> {
                &&& before.outcomes.is_prefix_of(after.outcomes)
                &&& result is Ok <==> after.outcomes.len() == size
                &&& after.states == before.states
                &&& after.results == before.results
                &&& after.memory == before.memory
                &&& after.ctx == before.ctx
                &&& after.config == before.config
                &&& after.starts == before.starts
                &&& after.metrics.execution_cnt == before.metrics.execution_cnt.plus(
                    (after.outcomes.len() - committed) as usize,
                )
                &&& result is Ok ==> after.control == before.control
                &&& result matches Err(error) ==> {
                    &&& error.txid == after.outcomes.len() < size
                    &&& {
                        ||| {
                            &&& after.control == before.control
                            &&& call_ensures(cancelled, (), false)
                            &&& exists|reached: S, given: Result<ExecutionResult, EVMError<E>>|
                                {
                                    &&& #[trigger] call_ensures(
                                        transact,
                                        (error.txid, reached),
                                        (given, after.state),
                                    )
                                    &&& given == Err::<ExecutionResult, EVMError<E>>(error.error)
                                    &&& error.error is Transaction ==> before.config.policy()
                                        == InvalidTransactionPolicy::Abort
                                }
                        }
                        ||| {
                            &&& call_ensures(cancelled, (), true)
                            &&& after.control.interrupted
                            &&& after.control.aborted
                            &&& error.error matches EVMError::Custom(message) && message@
                                == "grevm execution cancelled"@
                        }
                    }
                }
            }
        }),
{
    if committed <= before.states.len() && before.outcomes.len() == committed {
        if let Err(error) = result {
            let appended = after.outcomes.skip(committed as int);
            let kept = SchedulerView { outcomes: before.outcomes, ..after };
            let reached = choose|reached: S| #[trigger]
                stopped_at(
                    before,
                    kept,
                    committed as int,
                    appended,
                    reached,
                    transact,
                    cancelled,
                    error,
                );
            let policy = before.config.policy();
            if crate::fallback::failed(
                transact,
                policy,
                error.txid,
                reached,
                error.error,
                kept.state,
            ) && call_ensures(cancelled, (), false) && kept.control == before.control {
                let given = choose|given: Result<ExecutionResult, EVMError<E>>| {
                    &&& #[trigger] call_ensures(
                        transact,
                        (error.txid, reached),
                        (given, kept.state),
                    )
                    &&& outcome_of(policy, given) == Err::<TxExecutionOutcome, EVMError<E>>(
                        error.error,
                    )
                };
                law_policy_decides_invalid_transactions(policy, given);
                assert(call_ensures(transact, (error.txid, reached), (given, after.state)));
            }
        }
    }
}

/// A replay that ends well leads the state through one call per transaction behind the prefix, in
/// block order: `states` are the states between the calls.
pub proof fn law_replay_calls_every_transaction<
    S,
    R,
    E,
    T: Fn(TxId, S) -> (Result<ExecutionResult, EVMError<E>>, S),
    C: Fn() -> bool,
>(
    before: SchedulerView<S, R, E>,
    after: SchedulerView<S, R, E>,
    committed: usize,
    transact: T,
    cancelled: C,
    result: Result<(), GrevmError<E>>,
) -> (states: Seq<S>)
    requires
        replayed(before, after, committed, transact, cancelled, result),
        result is Ok,
    ensures
        after.outcomes.len() == before.states.len(),
        states.len() == before.states.len() - committed + 1,
        states[0] == before.state,
        states[before.states.len() - committed] == after.state,
        forall|t: int|
            committed <= t < before.states.len() ==> called(
                transact,
                before.config.policy(),
                t as usize,
                states[t - committed],
                #[trigger] after.outcomes[t],
                states[t - committed + 1],
            ),
{
    let appended = after.outcomes.skip(committed as int);
    let policy = before.config.policy();
    let states = law_outcomes_come_from_calls(
        transact,
        policy,
        committed as int,
        before.state,
        appended,
        after.state,
    );
    assert forall|t: int| committed <= t < before.states.len() implies called(
        transact,
        policy,
        t as usize,
        states[t - committed],
        #[trigger] after.outcomes[t],
        states[t - committed + 1],
    ) by {
        assert(appended[t - committed] == after.outcomes[t]);
    }
    states
}

/// How a stopped run ends. One that a fatal error of the EVM stopped returns that error with its
/// transaction, as long as the result still holds it; one that a failed commit stopped returns that
/// error; one that its caller stopped returns the cancellation; and none of these changes anything.
/// Every other one is replayed behind the committed prefix.
pub proof fn law_stop_reason_decides_the_end<
    S,
    R,
    E: Clone,
    T: Fn(TxId, S) -> (Result<ExecutionResult, EVMError<E>>, S),
    C: Fn() -> bool,
>(
    stopped: SchedulerView<S, R, E>,
    after: SchedulerView<S, R, E>,
    committed: usize,
    transact: T,
    cancelled: C,
    result: Result<(), GrevmError<E>>,
)
    requires
        recovered(stopped, after, committed, transact, cancelled, result),
    ensures
        match stopped.control.reason {
            Some(AbortReason::FatalEvmError(txid)) => {
                let holds_error = txid < stopped.results.len() && stopped.results[txid as int]
                    is Some && stopped.results[txid as int]->0.outcome is Err;
                &&& holds_error ==> {
                    &&& after == stopped
                    &&& result is Err
                    &&& result->Err_0.txid == txid
                    &&& match stopped.results[txid as int]->0.outcome->Err_0 {
                        EVMError::Database(error) => result->Err_0.error matches EVMError::Database(
                            copy,
                        ) && cloned(error, copy),
                        error => result->Err_0.error == error,
                    }
                }
                &&& !holds_error ==> replayed(
                    stopped,
                    after,
                    committed,
                    transact,
                    cancelled,
                    result,
                )
            },
            Some(AbortReason::CommitError(error)) => {
                &&& after == stopped
                &&& result is Err
                &&& result->Err_0.txid == error.txid
                &&& match error.error {
                    EVMError::Database(inner) => result->Err_0.error matches EVMError::Database(copy)
                        && cloned(inner, copy),
                    inner => result->Err_0.error == inner,
                }
            },
            Some(AbortReason::Cancelled) => {
                &&& after == stopped
                &&& result is Err
                &&& result->Err_0.error matches EVMError::Custom(message) && message@
                    == "grevm execution cancelled"@
                &&& committed < stopped.states.len() ==> result->Err_0.txid == committed
            },
            _ => replayed(stopped, after, committed, transact, cancelled, result),
        },
{
}

/// A caller's wish to stop marks the run as interrupted and stops it, for that reason unless there
/// was another before; it touches nothing but the control state, and does not start the run.
pub proof fn law_interruption_stops_the_run<S, R, E>(before: SchedulerView<S, R, E>)
    ensures
        ({
            let after = before.interrupted();
            &&& after.control.interrupted
            &&& after.control.aborted
            &&& after.control.started == before.control.started
            &&& before.control.reason is None ==> after.control.reason == Some(
                AbortReason::<E>::Cancelled,
            )
            &&& before.control.reason is Some ==> after.control.reason == before.control.reason
            &&& after == (SchedulerView { control: after.control, ..before })
        }),
{
}

/// The first run is marked as started and counts the transactions of the block, and nothing else
/// changes.
pub proof fn law_run_begins_with_its_size<S, R, E>(before: SchedulerView<S, R, E>)
    requires
        before.states.len() <= usize::MAX,
    ensures
        ({
            let after = before.run_begun();
            &&& after.control.started
            &&& after.control.aborted == before.control.aborted
            &&& after.control.reason == before.control.reason
            &&& after.control.interrupted == before.control.interrupted
            &&& after.control.finality_wait == before.control.finality_wait
            &&& after.control.commit_wait == before.control.commit_wait
            &&& after.control.wakes == before.control.wakes
            &&& after.metrics.total_tx_cnt.0 == before.states.len()
            &&& after == (SchedulerView {
                control: after.control,
                metrics: after.metrics,
                ..before
            })
            &&& after.metrics == (crate::metrics::ExecuteMetricsCollector {
                total_tx_cnt: after.metrics.total_tx_cnt,
                ..before.metrics
            })
        }),
{
}

/// A block is executed sequentially exactly where the configuration forces it or the block has
/// fewer transactions than make parallel execution worth while; otherwise the workers asked for are
/// those of the call, or else those configured.
pub proof fn law_small_blocks_run_sequentially<S, R, E>(
    view: SchedulerView<S, R, E>,
    concurrency_level: Option<usize>,
)
    ensures
        ({
            let tuning = view.config.tuning();
            let desired = view.desired_workers(concurrency_level);
            &&& desired is None <==> tuning.force_sequential || view.states.len()
                < tuning.min_parallel_txs
            &&& desired is Some && concurrency_level is Some ==> desired == concurrency_level
            &&& desired is Some && concurrency_level is None ==> desired->0
                == tuning.concurrency_level
        }),
{
}

/// An error is reported at the transaction concerned, and at the last one of the block if that lies
/// behind the block.
pub proof fn law_errors_are_reported_inside_the_block<S, R, E>(
    view: SchedulerView<S, R, E>,
    index: int,
)
    requires
        0 <= index,
    ensures
        0 <= view.reported_txid(index),
        view.states.len() > 0 ==> view.reported_txid(index) < view.states.len(),
        index < view.states.len() ==> view.reported_txid(index) == index,
        view.states.len() == 0 ==> view.reported_txid(index) == 0,
        index >= view.states.len() > 0 ==> view.reported_txid(index) == view.states.len() - 1,
{
}

/// A second run is refused at the first transaction that is not committed, with a text that says
/// why.
pub proof fn law_second_run_is_refused<S, R, E>(
    view: SchedulerView<S, R, E>,
    error: GrevmError<E>,
)
    requires
        view.refuses_run(error),
        0 <= view.ctx.committed <= view.states.len(),
    ensures
        view.ctx.committed < view.states.len() ==> error.txid == view.ctx.committed,
        error.error matches EVMError::Custom(message) && message@
            == "a Scheduler can execute only once; create a new Scheduler for each block"@,
{
}

/// An error reports a cancellation exactly if it is a custom error with the text of one.
pub proof fn law_cancellation_is_told_by_its_text<E>(error: GrevmError<E>)
    ensures
        error.cancelled_spec() <==> (error.error matches EVMError::Custom(message) && message@
            == "grevm execution cancelled"@),
{
}

/// What the role budget answered is measured: the wait in any case, the workers of a parallel run,
/// and whether a run that asked for workers has to do without. A wait that the caller interrupted
/// stops the run. Nothing else changes.
pub proof fn law_granted_roles_are_measured<S, R, E>(
    before: SchedulerView<S, R, E>,
    desired: Option<usize>,
    allocation: Option<crate::execution_resources::ExecutionAllocation>,
    nanos: usize,
)
    ensures
        ({
            let after = before.roles_acquired(desired, allocation, nanos);
            &&& after.metrics.resource_wait_time.0 == nanos
            &&& allocation is None ==> {
                &&& after.control.interrupted
                &&& after.control.aborted
                &&& after.metrics.parallel_worker_cnt == before.metrics.parallel_worker_cnt
                &&& after.metrics.resource_sequential_fallback
                    == before.metrics.resource_sequential_fallback
            }
            &&& allocation is Some ==> after.control == before.control
            &&& allocation is Some && allocation->0 is Parallel ==> {
                &&& after.metrics.parallel_worker_cnt.0 == allocation->0->workers
                &&& after.metrics.resource_sequential_fallback
                    == before.metrics.resource_sequential_fallback
            }
            &&& allocation is Some && allocation->0 is Sequential ==> {
                &&& after.metrics.resource_sequential_fallback.0 == if desired is Some {
                    1usize
                } else {
                    0usize
                }
                &&& after.metrics.parallel_worker_cnt == before.metrics.parallel_worker_cnt
            }
            &&& after == (SchedulerView {
                control: after.control,
                metrics: after.metrics,
                ..before
            })
        }),
{
}

/// A finished run reports how often validation was rolled back and how long it took.
pub proof fn law_finished_run_is_measured<S, R, E>(before: SchedulerView<S, R, E>, nanos: usize)
    ensures
        ({
            let after = before.run_measured(nanos);
            &&& after.metrics.total_time.0 == nanos
            &&& after.metrics.reset_validation_idx_cnt == before.ctx.resets
            &&& after.metrics == (crate::metrics::ExecuteMetricsCollector {
                total_time: after.metrics.total_time,
                reset_validation_idx_cnt: after.metrics.reset_validation_idx_cnt,
                ..before.metrics
            })
            &&& after == (SchedulerView { metrics: after.metrics, ..before })
        }),
{
}

/// A replay that ends with an error leads the state through one call per outcome, in block order,
/// and then through the call that failed, or nowhere if the caller asked to stop: `states` are the
/// states between the calls.
pub proof fn law_failed_replay_calls_up_to_the_failure<
    S,
    R,
    E,
    T: Fn(TxId, S) -> (Result<ExecutionResult, EVMError<E>>, S),
    C: Fn() -> bool,
>(
    before: SchedulerView<S, R, E>,
    after: SchedulerView<S, R, E>,
    committed: usize,
    transact: T,
    cancelled: C,
    result: Result<(), GrevmError<E>>,
) -> (states: Seq<S>)
    requires
        replayed(before, after, committed, transact, cancelled, result),
        result is Err,
        committed <= before.states.len(),
        before.outcomes.len() == committed,
    ensures
        after.outcomes.len() >= committed,
        states.len() == after.outcomes.len() - committed + 1,
        states[0] == before.state,
        forall|t: int|
            committed <= t < after.outcomes.len() ==> called(
                transact,
                before.config.policy(),
                t as usize,
                states[t - committed],
                #[trigger] after.outcomes[t],
                states[t - committed + 1],
            ),
        after.control == before.control ==> call_ensures(
            transact,
            (result->Err_0.txid, states.last()),
            (Err::<ExecutionResult, EVMError<E>>(result->Err_0.error), after.state),
        ) || after.state == states.last(),
        after.control != before.control ==> after.state == states.last(),
{
    let appended = after.outcomes.skip(committed as int);
    let policy = before.config.policy();
    let error = result->Err_0;
    let kept = SchedulerView { outcomes: before.outcomes, ..after };
    let reached = choose|reached: S| #[trigger]
        stopped_at(
            before,
            kept,
            committed as int,
            appended,
            reached,
            transact,
            cancelled,
            error,
        );
    let states = law_outcomes_come_from_calls(
        transact,
        policy,
        committed as int,
        before.state,
        appended,
        reached,
    );
    assert forall|t: int| committed <= t < after.outcomes.len() implies called(
        transact,
        policy,
        t as usize,
        states[t - committed],
        #[trigger] after.outcomes[t],
        states[t - committed + 1],
    ) by {
        assert(appended[t - committed] == after.outcomes[t]);
    }
    states
}

} // verus!
