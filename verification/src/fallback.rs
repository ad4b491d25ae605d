//! Sequential suffix replay used for configured and recovery fallbacks.

use crate::atomic::RelaxedUsize;
use crate::config::InvalidTransactionPolicy;
use crate::metrics::ExecuteMetricsCollector;
use crate::model::AbortReason;
use crate::outcome::{GrevmError, TxExecutionOutcome};
use crate::prefix::{describes, lemma_describes_push, Step};
use crate::scheduler::Scheduler;
use crate::scheduler_view::{ControlView, SchedulerView};
use crate::text::{decimal, push_decimal};
use crate::tx_dependency::TxId;
use revm_context::result::{EVMError, ExecutionResult, InvalidTransaction};
use vstd::prelude::*;
use vstd::string::StringExecFns;

verus! {

broadcast use Scheduler::lemma_wf;

/// What a sequential replay produced.
pub struct SequentialReplayOutput<E> {
    /// The outcomes of the completed prefix.
    pub outcomes: Vec<TxExecutionOutcome>,
    /// What stopped the replay, if it did not complete.
    pub error: Option<GrevmError<E>>,
}

/// What the result of one transaction means under a policy: an outcome, or an error that stops
/// the replay.
pub open spec fn outcome_of<E>(
    policy: InvalidTransactionPolicy,
    result: Result<ExecutionResult, EVMError<E>>,
) -> Result<TxExecutionOutcome, EVMError<E>> {
    match result {
        Ok(output) => Ok(TxExecutionOutcome::Executed(output)),
        Err(EVMError::Transaction(error)) => if policy == InvalidTransactionPolicy::Abort {
            Err(EVMError::Transaction(error))
        } else {
            Ok(TxExecutionOutcome::Skipped(error))
        },
        Err(error) => Err(error),
    }
}

/// Decides what the result of one transaction means under a policy.
pub fn classify<E>(
    policy: InvalidTransactionPolicy,
    result: Result<ExecutionResult, EVMError<E>>,
) -> (outcome: Result<TxExecutionOutcome, EVMError<E>>)
    ensures
        outcome == outcome_of(policy, result),
{
    match result {
        Ok(output) => Ok(TxExecutionOutcome::Executed(output)),
        Err(EVMError::Transaction(error)) => {
            if policy == InvalidTransactionPolicy::Abort {
                Err(EVMError::Transaction(error))
            } else {
                Ok(TxExecutionOutcome::Skipped(error))
            }
        },
        Err(error) => Err(error),
    }
}

/// Whether an outcome moves the block index: an executed transaction always does, an invalid one
/// only where it stays in the block as a no-op.
pub fn advances_block_index(
    policy: InvalidTransactionPolicy,
    outcome: &TxExecutionOutcome,
) -> (advances: bool)
    ensures
        advances == (outcome is Executed || policy == InvalidTransactionPolicy::IncludeNoop),
{
    outcome.is_executed() || policy == InvalidTransactionPolicy::IncludeNoop
}

/// Executing `txid` on `before` gave a result that the policy makes `outcome` of, and left `after`.
pub open spec fn transacted<S, E, T: Fn(TxId, S) -> (Result<ExecutionResult, EVMError<E>>, S)>(
    transact: T,
    policy: InvalidTransactionPolicy,
    txid: TxId,
    before: S,
    outcome: TxExecutionOutcome,
    after: S,
) -> bool {
    exists|result: Result<ExecutionResult, EVMError<E>>| {
        &&& #[trigger] call_ensures(transact, (txid, before), (result, after))
        &&& outcome_of(policy, result) == Ok::<TxExecutionOutcome, EVMError<E>>(outcome)
    }
}

/// What sequential execution may do to the state.
pub open spec fn sequential_step<S, E, T: Fn(TxId, S) -> (Result<ExecutionResult, EVMError<E>>, S)>(
    transact: T,
    policy: InvalidTransactionPolicy,
) -> Step<S> {
    |txid: TxId, before: S, outcome: TxExecutionOutcome, after: S|
        transacted(transact, policy, txid, before, outcome, after)
}

/// Executing `txid` on `before` gave an error that the policy does not skip, and left `after`.
pub open spec fn failed<S, E, T: Fn(TxId, S) -> (Result<ExecutionResult, EVMError<E>>, S)>(
    transact: T,
    policy: InvalidTransactionPolicy,
    txid: TxId,
    before: S,
    error: EVMError<E>,
    after: S,
) -> bool {
    exists|result: Result<ExecutionResult, EVMError<E>>| {
        &&& #[trigger] call_ensures(transact, (txid, before), (result, after))
        &&& outcome_of(policy, result) == Err::<TxExecutionOutcome, EVMError<E>>(error)
    }
}

/// Executing from `start` on took `before` to `reached` with the given outcomes.
pub open spec fn reaches<S, E, T: Fn(TxId, S) -> (Result<ExecutionResult, EVMError<E>>, S)>(
    transact: T,
    policy: InvalidTransactionPolicy,
    start: int,
    before: S,
    outcomes: Seq<TxExecutionOutcome>,
    reached: S,
) -> bool {
    describes(sequential_step(transact, policy), start, before, outcomes, reached)
}

/// A sequential execution that stopped with an error: the outcomes led to some state, on which the
/// next transaction failed or before which the caller asked to stop.
pub open spec fn stopped_at<
    S,
    R,
    E,
    T: Fn(TxId, S) -> (Result<ExecutionResult, EVMError<E>>, S),
    C: Fn() -> bool,
>(
    before: SchedulerView<S, R, E>,
    after: SchedulerView<S, R, E>,
    start: int,
    outcomes: Seq<TxExecutionOutcome>,
    reached: S,
    transact: T,
    cancelled: C,
    error: GrevmError<E>,
) -> bool {
    let policy = before.config.policy();
    let counted = before.executions_counted(outcomes.len());
    &&& reaches(transact, policy, start, before.state, outcomes, reached)
    &&& ({
        &&& call_ensures(cancelled, (), false)
        &&& failed(transact, policy, error.txid, reached, error.error, after.state)
        &&& after == (SchedulerView { state: after.state, ..counted })
    }) || ({
        &&& call_ensures(cancelled, (), true)
        &&& error.cancelled_spec()
        &&& after == (SchedulerView { state: reached, ..counted }).interrupted()
    })
}

impl<S, R, E> SchedulerView<S, R, E> {
    /// After a caller asked to stop.
    pub open spec fn interrupted(self) -> SchedulerView<S, R, E> {
        SchedulerView {
            control: (ControlView { interrupted: true, ..self.control }).aborted_for(
                AbortReason::Cancelled,
            ),
            ..self
        }
    }

    /// With `count` more executions counted.
    pub open spec fn executions_counted(self, count: nat) -> SchedulerView<S, R, E> {
        SchedulerView {
            metrics: ExecuteMetricsCollector {
                execution_cnt: self.metrics.execution_cnt.plus(count as usize),
                ..self.metrics
            },
            ..self
        }
    }

    /// The transaction at which an error at the committed prefix is reported.
    pub open spec fn reported_txid(self, index: int) -> int {
        if self.states.len() == 0 {
            0
        } else if index < self.states.len() {
            index
        } else {
            self.states.len() - 1
        }
    }
}

/// Adding up in two steps is adding up in one.
proof fn lemma_plus(counter: RelaxedUsize, a: usize, b: usize)
    requires
        a + b <= usize::MAX,
    ensures
        counter.plus(a).plus(b) == counter.plus((a + b) as usize),
{
}

/// The text that reports a committed prefix that does not match the outcomes.
pub open spec fn mismatch_text(boundary: nat, outcomes: nat, block_size: nat) -> Seq<char> {
    "committed prefix mismatch: boundary="@ + decimal(boundary) + ", outcomes="@ + decimal(outcomes)
        + ", block_size="@ + decimal(block_size)
}

fn mismatch_message(boundary: usize, outcomes: usize, block_size: usize) -> (message: String)
    ensures
        message@ == mismatch_text(boundary as nat, outcomes as nat, block_size as nat),
{
    let mut message = "committed prefix mismatch: boundary=".to_owned();
    push_decimal(&mut message, boundary);
    message.append(", outcomes=");
    push_decimal(&mut message, outcomes);
    message.append(", block_size=");
    push_decimal(&mut message, block_size);
    message
}

/// Rejects a transaction whose nonce cannot be increased: the nonce is checked, it is the highest
/// one, and so is the nonce of the caller's account. The account is read only if it matters.
pub fn reject_nonce_overflow<E, N: FnOnce() -> Result<Option<u64>, E>>(
    disable_nonce_check: bool,
    tx_nonce: u64,
    account_nonce: N,
) -> (result: Result<(), EVMError<E>>)
    requires
        call_requires(account_nonce, ()),
    ensures
        disable_nonce_check || tx_nonce != u64::MAX ==> result is Ok,
        !disable_nonce_check && tx_nonce == u64::MAX ==> exists|read: Result<Option<u64>, E>| {
            &&& #[trigger] call_ensures(account_nonce, (), read)
            &&& result == (match read {
                Err(error) => Err(EVMError::Database(error)),
                Ok(nonce) => if nonce == Some(u64::MAX) {
                    Err(EVMError::Transaction(InvalidTransaction::NonceOverflowInTransaction))
                } else {
                    Ok(())
                },
            })
        },
{
    if disable_nonce_check || tx_nonce != u64::MAX {
        return Ok(());
    }
    match account_nonce() {
        Err(error) => Err(EVMError::Database(error)),
        Ok(nonce) => {
            let nonce: u64 = match nonce {
                Some(nonce) => nonce,
                None => 0,
            };
            if nonce == u64::MAX {
                Err(EVMError::Transaction(InvalidTransaction::NonceOverflowInTransaction))
            } else {
                Ok(())
            }
        },
    }
}

impl<S, R, E> Scheduler<S, R, E> {
    /// Stops the run if a caller asked for it.
    pub fn poll_cancellation(&mut self, requested: bool) -> (stopped: bool)
        requires
            old(self).wf(),
        ensures
            final(self).wf(),
            stopped == requested,
            final(self)@ == (if requested {
                old(self)@.interrupted()
            } else {
                old(self)@
            }),
    {
        if requested {
            self.set_interrupted();
            self.abort(AbortReason::Cancelled);
            return true;
        }
        false
    }

    /// Whether the run has to stop; asks the caller only if nothing stopped it yet.
    pub fn should_abort<C: FnOnce() -> bool>(&mut self, cancellation: C) -> (stop: bool)
        requires
            old(self).wf(),
            call_requires(cancellation, ()),
        ensures
            final(self).wf(),
            old(self)@.control.aborted ==> stop && final(self)@ == old(self)@,
            !old(self)@.control.aborted ==> {
                &&& call_ensures(cancellation, (), stop)
                &&& final(self)@ == (if stop {
                    old(self)@.interrupted()
                } else {
                    old(self)@
                })
            },
    {
        if self.is_aborted() {
            return true;
        }
        let requested: bool = cancellation();
        self.poll_cancellation(requested)
    }

    /// Executes the transactions from `start` on one after the other on the canonical state, for
    /// as long as none of them fails and the caller does not ask to stop. An invalid transaction
    /// fails or is skipped, as the policy says.
    pub fn execute_sequential_suffix<
        T: Fn(TxId, S) -> (Result<ExecutionResult, EVMError<E>>, S),
        C: Fn() -> bool,
    >(&mut self, start: TxId, transact: &T, cancelled: &C) -> (replay: SequentialReplayOutput<E>)
        requires
            old(self).wf(),
            start <= old(self)@.states.len(),
            forall|txid: TxId, state: S|
                start <= txid < old(self)@.states.len() ==> #[trigger] call_requires(
                    *transact,
                    (txid, state),
                ),
            call_requires(*cancelled, ()),
        ensures
            final(self).wf(),
            replay.outcomes@.len() > 0 ==> call_ensures(*cancelled, (), false),
            match replay.error {
                None => {
                    &&& replay.outcomes@.len() == old(self)@.states.len() - start
                    &&& reaches(
                        *transact,
                        old(self)@.config.policy(),
                        start as int,
                        old(self)@.state,
                        replay.outcomes@,
                        final(self)@.state,
                    )
                    &&& final(self)@ == (SchedulerView {
                        state: final(self)@.state,
                        ..old(self)@.executions_counted(replay.outcomes@.len())
                    })
                },
                Some(error) => {
                    &&& replay.outcomes@.len() < old(self)@.states.len() - start
                    &&& error.txid == start + replay.outcomes@.len()
                    &&& exists|reached: S| #[trigger]
                        stopped_at(
                            old(self)@,
                            final(self)@,
                            start as int,
                            replay.outcomes@,
                            reached,
                            *transact,
                            *cancelled,
                            error,
                        )
                },
            },
    {
        let ghost before = self@;
        let policy: InvalidTransactionPolicy = self.config().invalid_transaction_policy();
        let block_size: usize = self.block_size();
        let mut outcomes: Vec<TxExecutionOutcome> = Vec::new();
        let mut txid: TxId = start;
        while txid < block_size
            invariant
                self.wf(),
                before == old(self)@,
                start <= txid <= block_size,
                block_size == before.states.len(),
                policy == before.config.policy(),
                outcomes@.len() == txid - start,
                self@ == (SchedulerView {
                    state: self@.state,
                    ..before.executions_counted(outcomes@.len())
                }),
                reaches(*transact, policy, start as int, before.state, outcomes@, self@.state),
                outcomes@.len() > 0 ==> call_ensures(*cancelled, (), false),
                forall|t: TxId, state: S|
                    start <= t < before.states.len() ==> #[trigger] call_requires(
                        *transact,
                        (t, state),
                    ),
                call_requires(*cancelled, ()),
            decreases block_size - txid,
        {
            let ghost reached = self@.state;
            let requested: bool = cancelled();
            if self.poll_cancellation(requested) {
                let error = GrevmError::cancelled(txid);
                assert(stopped_at(
                    before,
                    self@,
                    start as int,
                    outcomes@,
                    reached,
                    *transact,
                    *cancelled,
                    error,
                ));
                return SequentialReplayOutput { outcomes, error: Some(error) };
            }
            assert(call_ensures(*cancelled, (), false));
            let result: Result<ExecutionResult, EVMError<E>> = self.transact(txid, transact);
            let ghost given = result;
            assert(call_ensures(*transact, (txid, reached), (given, self@.state)));
            match classify(policy, result) {
                Ok(outcome) => {
                    proof {
                        let step = sequential_step(*transact, policy);
                        assert(transacted(*transact, policy, txid, reached, outcome, self@.state));
                        assert(step(txid, reached, outcome, self@.state));
                        lemma_describes_push(
                            step,
                            start as int,
                            before.state,
                            outcomes@,
                            reached,
                            outcome,
                            self@.state,
                        );
                        lemma_plus(before.metrics.execution_cnt, outcomes@.len() as usize, 1);
                    }
                    outcomes.push(outcome);
                    let mut metrics = self.metrics();
                    metrics.execution_cnt.increment();
                    self.set_metrics(metrics);
                },
                Err(error) => {
                    let error = GrevmError { txid, error };
                    assert(failed(*transact, policy, txid, reached, error.error, self@.state));
                    assert(stopped_at(
                        before,
                        self@,
                        start as int,
                        outcomes@,
                        reached,
                        *transact,
                        *cancelled,
                        error,
                    ));
                    return SequentialReplayOutput { outcomes, error: Some(error) };
                },
            }
            txid = txid + 1;
        }
        SequentialReplayOutput { outcomes, error: None }
    }

    /// Executes everything behind the committed prefix sequentially and appends the outcomes. The
    /// prefix has to match the outcomes collected so far.
    pub fn replay_uncommitted_suffix<
        T: Fn(TxId, S) -> (Result<ExecutionResult, EVMError<E>>, S),
        C: Fn() -> bool,
    >(&mut self, committed: usize, transact: &T, cancelled: &C) -> (result: Result<
        (),
        GrevmError<E>,
    >)
        requires
            old(self).wf(),
            forall|txid: TxId, state: S|
                committed <= txid < old(self)@.states.len() ==> #[trigger] call_requires(
                    *transact,
                    (txid, state),
                ),
            call_requires(*cancelled, ()),
        ensures
            final(self).wf(),
            replayed(old(self)@, final(self)@, committed, *transact, *cancelled, result),
    {
        let ghost before = self@;
        let start: usize = committed;
        let block_size: usize = self.block_size();
        let result_count: usize = self.outcomes().len();
        if start > block_size || result_count != start {
            let last: usize = if block_size > 0 {
                block_size - 1
            } else {
                0
            };
            return Err(
                GrevmError {
                    txid: if start < last {
                        start
                    } else {
                        last
                    },
                    error: EVMError::Custom(mismatch_message(start, result_count, block_size)),
                },
            );
        }
        if start == block_size {
            assert(self@.outcomes.skip(before.outcomes.len() as int) =~= Seq::empty());
            return Ok(());
        }
        let SequentialReplayOutput { outcomes, error } = self.execute_sequential_suffix(
            start,
            transact,
            cancelled,
        );
        let ghost executed = self@;
        self.extend_outcomes(outcomes);
        assert(self@.outcomes.skip(before.outcomes.len() as int) =~= outcomes@);
        match error {
            None => Ok(()),
            Some(error) => {
                assert(stopped_behind(
                    before,
                    self@,
                    start as int,
                    outcomes@,
                    *transact,
                    *cancelled,
                    error,
                )) by {
                    let reached = choose|reached: S| #[trigger]
                        stopped_at(
                            before,
                            executed,
                            start as int,
                            outcomes@,
                            reached,
                            *transact,
                            *cancelled,
                            error,
                        );
                    assert((SchedulerView { outcomes: before.outcomes, ..self@ }) == executed);
                };
                Err(error)
            },
        }
    }
}

/// [`stopped_at`] for a scheduler that took the outcomes over.
pub open spec fn stopped_behind<
    S,
    R,
    E,
    T: Fn(TxId, S) -> (Result<ExecutionResult, EVMError<E>>, S),
    C: Fn() -> bool,
>(
    before: SchedulerView<S, R, E>,
    after: SchedulerView<S, R, E>,
    start: int,
    outcomes: Seq<TxExecutionOutcome>,
    transact: T,
    cancelled: C,
    error: GrevmError<E>,
) -> bool {
    &&& after.outcomes == before.outcomes + outcomes
    &&& exists|reached: S| #[trigger]
        stopped_at(
            before,
            (SchedulerView { outcomes: before.outcomes, ..after }),
            start,
            outcomes,
            reached,
            transact,
            cancelled,
            error,
        )
}

/// What a replay behind a committed prefix of length `committed` does: a prefix that does not
/// match the outcomes is reported and nothing changes; otherwise outcomes are appended in block
/// order, all of them on success, and up to the failing transaction on an error, and the state is
/// the one that they lead to.
pub open spec fn replayed<
    S,
    R,
    E,
    T: Fn(TxId, S) -> (Result<ExecutionResult, EVMError<E>>, S),
    C: Fn() -> bool,
>(
    before: SchedulerView<S, R, E>,
    after: SchedulerView<S, R, E>,
    committed: usize,
    transact: T,
    cancelled: C,
    result: Result<(), GrevmError<E>>,
) -> bool {
    let count = before.outcomes.len();
    let size = before.states.len();
    let policy = before.config.policy();
    if committed > size || count != committed {
        &&& after == before
        &&& match result {
            Ok(_) => false,
            Err(error) => {
                &&& error.txid == before.reported_txid(committed as int)
                &&& match error.error {
                    EVMError::Custom(message) => message@ == mismatch_text(
                        committed as nat,
                        count,
                        size,
                    ),
                    _ => false,
                }
            },
        }
    } else {
        let appended = after.outcomes.skip(count as int);
        &&& after.outcomes == before.outcomes + appended
        &&& appended.len() > 0 ==> call_ensures(cancelled, (), false)
        &&& match result {
            Ok(_) => {
                &&& after.outcomes.len() == size
                &&& reaches(
                    transact,
                    policy,
                    committed as int,
                    before.state,
                    appended,
                    after.state,
                )
                &&& after == (SchedulerView {
                    state: after.state,
                    outcomes: before.outcomes + appended,
                    ..before.executions_counted(appended.len())
                })
            },
            Err(error) => {
                &&& after.outcomes.len() < size
                &&& error.txid == after.outcomes.len()
                &&& stopped_behind(
                    before,
                    after,
                    committed as int,
                    appended,
                    transact,
                    cancelled,
                    error,
                )
            },
        }
    }
}

/// A replay never loses or reorders an outcome, and the outcomes it leaves always reach up to the
/// transaction at which it stopped.
pub proof fn law_replay_extends_the_prefix<
    S,
    R,
    E,
    T: Fn(TxId, S) -> (Result<ExecutionResult, EVMError<E>>, S),
    C: Fn() -> bool,
>(
    before: SchedulerView<S, R, E>,
    after: SchedulerView<S, R, E>,
    committed: usize,
    transact: T,
    cancelled: C,
    result: Result<(), GrevmError<E>>,
)
    requires
        before.outcomes.len() <= before.states.len(),
        replayed(before, after, committed, transact, cancelled, result),
    ensures
        before.outcomes.is_prefix_of(after.outcomes),
        after.outcomes.len() <= before.states.len(),
        result is Ok ==> after.outcomes.len() == before.states.len(),
{
}

} // verus!
