//! How far the transactions of a block move the block access index.

use crate::config::InvalidTransactionPolicy;
use crate::fallback::{advances_block_index, outcome_of};
use crate::outcome::TxExecutionOutcome;
use crate::parallel_state::{ParallelState, StateView};
use crate::prefix::{describes, describes_last, Step};
use crate::tx_dependency::TxId;
use revm_context::result::{EVMError, ExecutionResult};
use vstd::prelude::*;

verus! {

/// By how much an outcome moves the index: an executed transaction by one, an invalid one only
/// where it stays in the block as a no-op.
pub open spec fn index_step(policy: InvalidTransactionPolicy, outcome: TxExecutionOutcome) -> int {
    if outcome is Executed || policy == InvalidTransactionPolicy::IncludeNoop {
        1
    } else {
        0
    }
}

/// By how much a result moves the index: as its outcome does, and not at all if it stops the block.
pub open spec fn result_step<E>(
    policy: InvalidTransactionPolicy,
    result: Result<ExecutionResult, EVMError<E>>,
) -> int {
    match outcome_of(policy, result) {
        Ok(outcome) => index_step(policy, outcome),
        Err(_) => 0,
    }
}

/// By how much a list of outcomes moves the index.
pub open spec fn index_steps(
    policy: InvalidTransactionPolicy,
    outcomes: Seq<TxExecutionOutcome>,
) -> int
    decreases outcomes.len(),
{
    if outcomes.len() == 0 {
        0
    } else {
        index_steps(policy, outcomes.drop_last()) + index_step(policy, outcomes.last())
    }
}

/// How many outcomes are those of executed transactions.
pub open spec fn executed_count(outcomes: Seq<TxExecutionOutcome>) -> int
    decreases outcomes.len(),
{
    if outcomes.len() == 0 {
        0
    } else {
        executed_count(outcomes.drop_last()) + if outcomes.last() is Executed {
            1int
        } else {
            0
        }
    }
}

/// Moves the block access index as the outcome of a transaction asks for.
pub fn settle_block_index<DB, H>(
    state: &mut ParallelState<DB, H>,
    policy: InvalidTransactionPolicy,
    outcome: &TxExecutionOutcome,
)
    requires
        old(state).wf(),
        old(state)@.bal_index < u64::MAX,
    ensures
        final(state).wf(),
        final(state)@ == (StateView {
            bal_index: (old(state)@.bal_index + index_step(policy, *outcome)) as u64,
            ..old(state)@
        }),
{
    if advances_block_index(policy, outcome) {
        state.bump_bal_index();
    }
}

/// Moves the block access index as the result of a transaction asks for that was executed on the
/// canonical state.
pub fn settle_result_index<DB, H, E>(
    state: &mut ParallelState<DB, H>,
    policy: InvalidTransactionPolicy,
    result: &Result<ExecutionResult, EVMError<E>>,
)
    requires
        old(state).wf(),
        old(state)@.bal_index < u64::MAX,
    ensures
        final(state).wf(),
        final(state)@ == (StateView {
            bal_index: (old(state)@.bal_index + result_step(policy, *result)) as u64,
            ..old(state)@
        }),
{
    let advances: bool = match result {
        Ok(_) => true,
        Err(EVMError::Transaction(_)) => policy == InvalidTransactionPolicy::IncludeNoop,
        Err(_) => false,
    };
    if advances {
        state.bump_bal_index();
    }
}

/// A list of outcomes moves the index by the number of executed transactions, or, where invalid
/// ones stay in the block as no-ops, by the number of all transactions.
pub proof fn law_index_counts_outcomes(
    policy: InvalidTransactionPolicy,
    outcomes: Seq<TxExecutionOutcome>,
)
    ensures
        index_steps(policy, outcomes) == if policy == InvalidTransactionPolicy::IncludeNoop {
            outcomes.len() as int
        } else {
            executed_count(outcomes)
        },
        0 <= index_steps(policy, outcomes) <= outcomes.len(),
    decreases outcomes.len(),
{
    if outcomes.len() > 0 {
        law_index_counts_outcomes(policy, outcomes.drop_last());
    }
}

/// Batches add up: two lists of outcomes in a row move the index by the sum of both.
pub proof fn law_index_steps_add_up(
    policy: InvalidTransactionPolicy,
    first: Seq<TxExecutionOutcome>,
    second: Seq<TxExecutionOutcome>,
)
    ensures
        index_steps(policy, first + second) == index_steps(policy, first) + index_steps(
            policy,
            second,
        ),
    decreases second.len(),
{
    if second.len() == 0 {
        assert(first + second =~= first);
    } else {
        law_index_steps_add_up(policy, first, second.drop_last());
        assert((first + second).drop_last() =~= first + second.drop_last());
        assert((first + second).last() == second.last());
    }
}

/// Where every transaction settles the index by its outcome, a run moves it by what its outcomes
/// say: `index` reads it off a state, and the outcomes describe how `before` became `after`.
pub proof fn law_run_moves_the_index<S>(
    policy: InvalidTransactionPolicy,
    index: spec_fn(S) -> int,
    step: Step<S>,
    start: int,
    before: S,
    outcomes: Seq<TxExecutionOutcome>,
    after: S,
)
    requires
        describes(step, start, before, outcomes, after),
        forall|txid: TxId, a: S, outcome: TxExecutionOutcome, b: S| #[trigger]
            step(txid, a, outcome, b) ==> index(b) == index(a) + index_step(policy, outcome),
    ensures
        index(after) == index(before) + index_steps(policy, outcomes),
    decreases outcomes.len(),
{
    if outcomes.len() > 0 {
        let middle = choose|middle: S| #[trigger]
            describes_last(
                step,
                (start + outcomes.len() - 1) as usize,
                middle,
                outcomes.last(),
                after,
            ) && describes(step, start, before, outcomes.drop_last(), middle);
        law_run_moves_the_index(
            policy,
            index,
            step,
            start,
            before,
            outcomes.drop_last(),
            middle,
        );
    }
}

/// An executed transaction moves the index by one under every policy; an invalid one moves it by
/// one where it stays in the block as a no-op and not at all elsewhere; an error that stops the
/// block never moves it.
pub proof fn law_index_moves_with_the_block<E>(
    policy: InvalidTransactionPolicy,
    outcome: TxExecutionOutcome,
    result: Result<ExecutionResult, EVMError<E>>,
)
    ensures
        outcome is Executed ==> index_step(policy, outcome) == 1,
        outcome is Skipped && policy == InvalidTransactionPolicy::IncludeNoop ==> index_step(
            policy,
            outcome,
        ) == 1,
        outcome is Skipped && policy != InvalidTransactionPolicy::IncludeNoop ==> index_step(
            policy,
            outcome,
        ) == 0,
        result is Ok ==> result_step(policy, result) == 1,
        result is Err && result->Err_0 is Transaction ==> result_step(policy, result) == if policy
            == InvalidTransactionPolicy::IncludeNoop {
            1int
        } else {
            0int
        },
        result is Err && !(result->Err_0 is Transaction) ==> result_step(policy, result) == 0,
{
}

} // verus!
