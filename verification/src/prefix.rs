//! The committed prefix: outcomes and the state that they describe.

use crate::commit::CommitOutcome;
use crate::config::GrevmConfig;
use crate::control::recovered;
use crate::fallback::{failed, replayed, sequential_step};
use crate::outcome::{GrevmError, TxExecutionOutcome};
use crate::scheduler::initial_view;
use crate::scheduler_view::SchedulerView;
use crate::tx_dependency::TxId;
use revm_context::result::{EVMError, ExecutionResult};
use vstd::prelude::*;

verus! {

/// Whether a transaction may take a state to another one with an outcome.
pub type Step<S> = spec_fn(TxId, S, TxExecutionOutcome, S) -> bool;

/// Some state that the earlier outcomes describe leads to `after` by the last outcome.
pub open spec fn describes_last<S>(
    step: Step<S>,
    txid: TxId,
    middle: S,
    outcome: TxExecutionOutcome,
    after: S,
) -> bool {
    step(txid, middle, outcome, after)
}

/// The outcomes describe how `before` became `after`: the transactions from `start` on, one after
/// the other, each a step from the state that the one before it left.
pub open spec fn describes<S>(
    step: Step<S>,
    start: int,
    before: S,
    outcomes: Seq<TxExecutionOutcome>,
    after: S,
) -> bool
    decreases outcomes.len(),
{
    if outcomes.len() == 0 {
        after == before
    } else {
        exists|middle: S| #[trigger]
            describes_last(
                step,
                (start + outcomes.len() - 1) as usize,
                middle,
                outcomes.last(),
                after,
            ) && describes(step, start, before, outcomes.drop_last(), middle)
    }
}

/// One more step extends the outcomes by one.
pub proof fn lemma_describes_push<S>(
    step: Step<S>,
    start: int,
    before: S,
    outcomes: Seq<TxExecutionOutcome>,
    middle: S,
    outcome: TxExecutionOutcome,
    after: S,
)
    requires
        describes(step, start, before, outcomes, middle),
        step((start + outcomes.len()) as usize, middle, outcome, after),
    ensures
        describes(step, start, before, outcomes.push(outcome), after),
{
    let longer = outcomes.push(outcome);
    assert(longer.drop_last() =~= outcomes);
    assert(describes_last(
        step,
        (start + longer.len() - 1) as usize,
        middle,
        longer.last(),
        after,
    ));
}

/// Two runs of steps in a row are one run; steps of the second kind may be fewer.
pub proof fn lemma_describes_append<S>(
    step: Step<S>,
    narrow: Step<S>,
    start: int,
    before: S,
    first: Seq<TxExecutionOutcome>,
    middle: S,
    second: Seq<TxExecutionOutcome>,
    after: S,
)
    requires
        describes(step, start, before, first, middle),
        describes(narrow, start + first.len(), middle, second, after),
        forall|txid: TxId, a: S, outcome: TxExecutionOutcome, b: S| #[trigger]
            narrow(txid, a, outcome, b) ==> step(txid, a, outcome, b),
    ensures
        describes(step, start, before, first + second, after),
    decreases second.len(),
{
    if second.len() == 0 {
        assert(first + second =~= first);
    } else {
        let last = choose|last: S| #[trigger]
            describes_last(
                narrow,
                (start + first.len() + second.len() - 1) as usize,
                last,
                second.last(),
                after,
            ) && describes(narrow, start + first.len(), middle, second.drop_last(), last);
        lemma_describes_append(
            step,
            narrow,
            start,
            before,
            first,
            middle,
            second.drop_last(),
            last,
        );
        lemma_describes_push(
            step,
            start,
            before,
            first + second.drop_last(),
            last,
            second.last(),
            after,
        );
        assert((first + second.drop_last()).push(second.last()) =~= first + second);
    }
}

/// Where a step leaves no choice, the outcomes and the first state decide the last one.
pub proof fn law_outcomes_decide_the_state<S>(
    step: Step<S>,
    start: int,
    before: S,
    outcomes: Seq<TxExecutionOutcome>,
    a: S,
    b: S,
)
    requires
        describes(step, start, before, outcomes, a),
        describes(step, start, before, outcomes, b),
        forall|txid: TxId, from: S, outcome: TxExecutionOutcome, x: S, y: S|
            #![trigger step(txid, from, outcome, x), step(txid, from, outcome, y)]
            step(txid, from, outcome, x) && step(txid, from, outcome, y) ==> x == y,
    ensures
        a == b,
    decreases outcomes.len(),
{
    if outcomes.len() > 0 {
        let txid = (start + outcomes.len() - 1) as usize;
        let x = choose|middle: S| #[trigger]
            describes_last(step, txid, middle, outcomes.last(), a) && describes(
                step,
                start,
                before,
                outcomes.drop_last(),
                middle,
            );
        let y = choose|middle: S| #[trigger]
            describes_last(step, txid, middle, outcomes.last(), b) && describes(
                step,
                start,
                before,
                outcomes.drop_last(),
                middle,
            );
        law_outcomes_decide_the_state(step, start, before, outcomes.drop_last(), x, y);
    }
}

impl<S, R, E> SchedulerView<S, R, E> {
    /// State and outcomes describe the same prefix: the outcomes describe how the state that the
    /// scheduler was created with became the state it holds.
    pub open spec fn prefix_described(self, step: Step<S>, initial: S) -> bool {
        describes(step, 0, initial, self.outcomes, self.state)
    }
}

/// Before execution there are no outcomes and the state is untouched.
pub proof fn law_new_scheduler_describes_its_state<S, R, E>(
    step: Step<S>,
    block_size: nat,
    state: S,
    config: GrevmConfig,
)
    ensures
        initial_view::<S, R, E>(block_size, state, config).prefix_described(step, state),
{
}

/// The ordered commit keeps state and outcomes in step, whatever becomes of the output: a
/// committed one takes the state one step further and adds its outcome; any other one leaves both,
/// provided that the commit hands back the state that it got.
pub proof fn law_commit_keeps_the_prefix<S, R, E>(
    step: Step<S>,
    initial: S,
    before: SchedulerView<S, R, E>,
    txid: TxId,
    outcome: CommitOutcome<E>,
    state: S,
)
    requires
        before.prefix_described(step, initial),
        txid == before.outcomes.len(),
        outcome matches CommitOutcome::Committed { outcome } ==> step(
            txid,
            before.state,
            outcome,
            state,
        ),
        !(outcome is Committed) ==> state == before.state,
    ensures
        before.commit_finished(txid, outcome, state).prefix_described(step, initial),
{
    if let CommitOutcome::Committed { outcome } = outcome {
        lemma_describes_push(
            step,
            0,
            initial,
            before.outcomes,
            before.state,
            outcome,
            state,
        );
    }
}

/// A sequential replay keeps state and outcomes in step: every appended outcome takes the state
/// one step further, and the transaction that stops the replay leaves the state as it was,
/// provided that a failing execution hands back the state that it got.
pub proof fn law_replay_keeps_the_prefix<
    S,
    R,
    E,
    T: Fn(TxId, S) -> (Result<ExecutionResult, EVMError<E>>, S),
    C: Fn() -> bool,
>(
    step: Step<S>,
    initial: S,
    before: SchedulerView<S, R, E>,
    after: SchedulerView<S, R, E>,
    committed: usize,
    transact: T,
    cancelled: C,
    result: Result<(), GrevmError<E>>,
)
    requires
        before.prefix_described(step, initial),
        replayed(before, after, committed, transact, cancelled, result),
        forall|txid: TxId, a: S, outcome: TxExecutionOutcome, b: S| #[trigger]
            sequential_step(transact, before.config.policy())(
                txid,
                a,
                outcome,
                b,
            ) ==> step(txid, a, outcome, b),
        forall|txid: TxId, a: S, error: EVMError<E>, b: S| #[trigger]
            failed(transact, before.config.policy(), txid, a, error, b) ==> b
                == a,
    ensures
        after.prefix_described(step, initial),
{
    let count = before.outcomes.len();
    if committed <= before.states.len() && count == committed {
        let appended = after.outcomes.skip(count as int);
        let narrow = sequential_step(transact, before.config.policy());
        lemma_describes_append(
            step,
            narrow,
            0,
            initial,
            before.outcomes,
            before.state,
            appended,
            after.state,
        );
    }
}

/// However a stopped run ends, state and outcomes describe the same prefix.
pub proof fn law_recovery_keeps_the_prefix<
    S,
    R,
    E: Clone,
    T: Fn(TxId, S) -> (Result<ExecutionResult, EVMError<E>>, S),
    C: Fn() -> bool,
>(
    step: Step<S>,
    initial: S,
    before: SchedulerView<S, R, E>,
    after: SchedulerView<S, R, E>,
    committed: usize,
    transact: T,
    cancelled: C,
    result: Result<(), GrevmError<E>>,
)
    requires
        before.prefix_described(step, initial),
        recovered(before, after, committed, transact, cancelled, result),
        forall|txid: TxId, a: S, outcome: TxExecutionOutcome, b: S| #[trigger]
            sequential_step(transact, before.config.policy())(
                txid,
                a,
                outcome,
                b,
            ) ==> step(txid, a, outcome, b),
        forall|txid: TxId, a: S, error: EVMError<E>, b: S| #[trigger]
            failed(transact, before.config.policy(), txid, a, error, b) ==> b
                == a,
    ensures
        after.prefix_described(step, initial),
{
    if replayed(before, after, committed, transact, cancelled, result) {
        law_replay_keeps_the_prefix(
            step,
            initial,
            before,
            after,
            committed,
            transact,
            cancelled,
            result,
        );
    }
}

} // verus!
