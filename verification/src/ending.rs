//! How a run of a block ends: with success, or at which transaction with an error.
//!
//! Sequential execution ends at the first transaction that cannot be executed and that the policy
//! does not skip, or at the end of the block. Every run ends there, whatever its tuning: in
//! parallel, one transaction after the other, or first the one and then the other.

use crate::config::{GrevmConfig, InvalidTransactionPolicy};
use crate::control::recovered;
use crate::equivalence::{
    law_final_transactions_execute, ordered_step, verdict_of, Apply, Program, Verdict,
};
use crate::fallback::{failed, outcome_of, reaches, replayed, sequential_step, stopped_at, transacted};
use crate::history::{law_runs_are_sound, run_at, run_legal, Run, RunStep};
use crate::model::AbortReason;
use crate::outcome::{GrevmError, TxExecutionOutcome};
use crate::prefix::{
    describes, describes_last, law_recovery_keeps_the_prefix, law_replay_keeps_the_prefix,
    lemma_describes_append, Step,
};
use crate::scheduler_view::SchedulerView;
use crate::tx_dependency::TxId;
use revm_context::result::{EVMError, ExecutionResult};
use vstd::prelude::*;

verus! {

impl<V, R> Program<V, R> {
    /// Sequential execution goes past `txid`: it is executed, or it is invalid and skipped.
    pub open spec fn passes(self, policy: InvalidTransactionPolicy, txid: int) -> bool {
        match self.sequential_verdict(txid) {
            Verdict::Executes => true,
            Verdict::Invalid => policy != InvalidTransactionPolicy::Abort,
            Verdict::Fails => false,
        }
    }

    /// Sequential execution of a block ends at `end`: it goes past everything before it, and `end`
    /// is the end of the block or does not pass.
    pub open spec fn ends_at(
        self,
        policy: InvalidTransactionPolicy,
        block_size: nat,
        end: int,
    ) -> bool {
        &&& 0 <= end <= block_size
        &&& forall|t: int| 0 <= t < end ==> #[trigger] self.passes(policy, t)
        &&& end < block_size ==> !self.passes(policy, end)
    }
}

/// The state that sequential execution leaves before `txid`.
pub open spec fn state_before<S, R, V>(
    program: Program<V, R>,
    apply: Apply<S, R>,
    initial: S,
    txid: int,
) -> S
    decreases txid,
{
    if txid <= 0 {
        initial
    } else {
        apply(
            state_before(program, apply, initial, txid - 1),
            program.sequential_effect(txid - 1).output,
        ).1
    }
}

/// The outcome that sequential execution gives `txid`.
pub open spec fn outcome_at<S, R, V>(
    program: Program<V, R>,
    apply: Apply<S, R>,
    initial: S,
    txid: int,
) -> TxExecutionOutcome {
    apply(
        state_before(program, apply, initial, txid),
        program.sequential_effect(txid).output,
    ).0
}

/// The outcomes are those that sequential execution gives the first transactions, and the state is
/// the one that it leaves behind them.
pub open spec fn sequential_prefix<S, R, V>(
    program: Program<V, R>,
    apply: Apply<S, R>,
    initial: S,
    outcomes: Seq<TxExecutionOutcome>,
    state: S,
) -> bool {
    &&& forall|t: int|
        0 <= t < outcomes.len() ==> #[trigger] outcomes[t] == outcome_at(
            program,
            apply,
            initial,
            t,
        )
    &&& state == state_before(program, apply, initial, outcomes.len() as int)
}

/// Executing a transaction of the block on the state that sequential execution leaves before it
/// says of it what the program says, commits its output where the policy lets it pass, and hands
/// back the state that it got where not.
pub open spec fn executes_in_order<
    S,
    R,
    E,
    V,
    T: Fn(TxId, S) -> (Result<ExecutionResult, EVMError<E>>, S),
>(
    program: Program<V, R>,
    apply: Apply<S, R>,
    initial: S,
    block_size: nat,
    transact: T,
    policy: InvalidTransactionPolicy,
) -> bool {
    forall|txid: TxId, before: S, result: Result<ExecutionResult, EVMError<E>>, after: S|
        #[trigger] call_ensures(transact, (txid, before), (result, after)) && txid < block_size
            && before == state_before(program, apply, initial, txid as int) ==> {
            &&& verdict_of(result) == program.sequential_verdict(txid as int)
            &&& match outcome_of(policy, result) {
                Ok(outcome) => (outcome, after) == apply(
                    before,
                    program.sequential_effect(txid as int).output,
                ),
                Err(_) => after == before,
            }
        }
}

/// How a run ends whose parallel steps led to `stopped`: a run that nothing stopped with success
/// once the commit role is done, a stopped one as its cause says. A block may also be executed
/// sequentially from its committed prefix on.
pub open spec fn ended<
    S,
    R,
    E: Clone,
    T: Fn(TxId, S) -> (Result<ExecutionResult, EVMError<E>>, S),
    C: Fn() -> bool,
>(
    stopped: SchedulerView<S, R, E>,
    after: SchedulerView<S, R, E>,
    transact: T,
    cancelled: C,
    result: Result<(), GrevmError<E>>,
) -> bool {
    let committed = stopped.ctx.committed as usize;
    if stopped.control.aborted {
        recovered(stopped, after, committed, transact, cancelled, result)
    } else {
        ||| stopped.commit_done() && result is Ok && after == stopped
        ||| replayed(stopped, after, committed, transact, cancelled, result)
    }
}

/// Nobody asked the run to stop, and no commit failed.
pub open spec fn undisturbed<S, R, E, C: Fn() -> bool>(
    stopped: SchedulerView<S, R, E>,
    cancelled: C,
) -> bool {
    &&& !call_ensures(cancelled, (), true)
    &&& !(stopped.control.reason matches Some(AbortReason::Cancelled))
    &&& !(stopped.control.reason matches Some(AbortReason::CommitError(_)))
}

/// The end of a run is the end of sequential execution.
pub open spec fn ends_sequentially<S, R, E, V>(
    program: Program<V, R>,
    apply: Apply<S, R>,
    initial: S,
    policy: InvalidTransactionPolicy,
    block_size: nat,
    after: SchedulerView<S, R, E>,
    result: Result<(), GrevmError<E>>,
) -> bool {
    let end = after.outcomes.len() as int;
    &&& program.ends_at(policy, block_size, end)
    &&& sequential_prefix(program, apply, initial, after.outcomes, after.state)
    &&& match result {
        Ok(_) => end == block_size,
        Err(error) => {
            &&& end < block_size
            &&& error.txid == end
            &&& verdict_of(Err::<R, EVMError<E>>(error.error)) == program.sequential_verdict(end)
        },
    }
}

/// What steps of the ordered commit describe is a sequential prefix.
proof fn lemma_described_is_sequential<S, R, V>(
    program: Program<V, R>,
    apply: Apply<S, R>,
    initial: S,
    outcomes: Seq<TxExecutionOutcome>,
    state: S,
)
    requires
        describes(ordered_step(program, apply), 0, initial, outcomes, state),
        outcomes.len() <= usize::MAX,
    ensures
        sequential_prefix(program, apply, initial, outcomes, state),
    decreases outcomes.len(),
{
    if outcomes.len() > 0 {
        let step = ordered_step(program, apply);
        let txid = (outcomes.len() - 1) as usize;
        let middle = choose|middle: S| #[trigger]
            describes_last(step, txid, middle, outcomes.last(), state) && describes(
                step,
                0,
                initial,
                outcomes.drop_last(),
                middle,
            );
        lemma_described_is_sequential(program, apply, initial, outcomes.drop_last(), middle);
        assert forall|t: int| 0 <= t < outcomes.len() implies #[trigger] outcomes[t]
            == outcome_at(program, apply, initial, t) by {
            if t < outcomes.len() - 1 {
                assert(outcomes.drop_last()[t] == outcomes[t]);
            }
        }
    }
}

/// Executing transactions one after the other behind a sequential prefix goes past each of them as
/// sequential execution does.
proof fn lemma_execution_is_sequential<
    S,
    R,
    E,
    V,
    T: Fn(TxId, S) -> (Result<ExecutionResult, EVMError<E>>, S),
>(
    program: Program<V, R>,
    apply: Apply<S, R>,
    initial: S,
    block_size: nat,
    transact: T,
    policy: InvalidTransactionPolicy,
    start: int,
    before: S,
    outcomes: Seq<TxExecutionOutcome>,
    after: S,
)
    requires
        executes_in_order(program, apply, initial, block_size, transact, policy),
        reaches(transact, policy, start, before, outcomes, after),
        0 <= start,
        start + outcomes.len() <= block_size <= usize::MAX,
        before == state_before(program, apply, initial, start),
    ensures
        after == state_before(program, apply, initial, start + outcomes.len()),
        forall|i: int|
            0 <= i < outcomes.len() ==> #[trigger] outcomes[i] == outcome_at(
                program,
                apply,
                initial,
                start + i,
            ),
        forall|t: int|
            start <= t < start + outcomes.len() ==> #[trigger] program.passes(policy, t),
    decreases outcomes.len(),
{
    if outcomes.len() > 0 {
        let step = sequential_step(transact, policy);
        let last = start + outcomes.len() - 1;
        let middle = choose|middle: S| #[trigger]
            describes_last(step, last as usize, middle, outcomes.last(), after) && describes(
                step,
                start,
                before,
                outcomes.drop_last(),
                middle,
            );
        lemma_execution_is_sequential(
            program,
            apply,
            initial,
            block_size,
            transact,
            policy,
            start,
            before,
            outcomes.drop_last(),
            middle,
        );
        assert(transacted(transact, policy, last as usize, middle, outcomes.last(), after));
        let result = choose|result: Result<ExecutionResult, EVMError<E>>| {
            &&& #[trigger] call_ensures(transact, (last as usize, middle), (result, after))
            &&& outcome_of(policy, result) == Ok::<TxExecutionOutcome, EVMError<E>>(
                outcomes.last(),
            )
        };
        assert(call_ensures(transact, (last as usize, middle), (result, after)));
        assert(program.passes(policy, last));
        assert forall|i: int| 0 <= i < outcomes.len() implies #[trigger] outcomes[i]
            == outcome_at(program, apply, initial, start + i) by {
            if i < outcomes.len() - 1 {
                assert(outcomes.drop_last()[i] == outcomes[i]);
            }
        }
    }
}

/// A replay behind a sequential prefix ends as sequential execution does.
pub proof fn law_replay_ends_as_sequential_execution<
    S,
    R,
    E,
    V,
    T: Fn(TxId, S) -> (Result<ExecutionResult, EVMError<E>>, S),
    C: Fn() -> bool,
>(
    program: Program<V, R>,
    apply: Apply<S, R>,
    initial: S,
    before: SchedulerView<S, R, E>,
    after: SchedulerView<S, R, E>,
    transact: T,
    cancelled: C,
    result: Result<(), GrevmError<E>>,
)
    requires
        sequential_prefix(program, apply, initial, before.outcomes, before.state),
        before.outcomes.len() == before.ctx.committed,
        before.outcomes.len() <= before.states.len() <= usize::MAX,
        forall|t: int|
            0 <= t < before.outcomes.len() ==> #[trigger] program.passes(
                before.config.policy(),
                t,
            ),
        executes_in_order(
            program,
            apply,
            initial,
            before.states.len(),
            transact,
            before.config.policy(),
        ),
        !call_ensures(cancelled, (), true),
        replayed(
            before,
            after,
            before.ctx.committed as usize,
            transact,
            cancelled,
            result,
        ),
    ensures
        ends_sequentially(
            program,
            apply,
            initial,
            before.config.policy(),
            before.states.len(),
            after,
            result,
        ),
{
    let policy = before.config.policy();
    let size = before.states.len();
    let start = before.outcomes.len() as int;
    let appended = after.outcomes.skip(start);
    let reached = match result {
        Ok(_) => after.state,
        Err(error) => choose|reached: S| #[trigger]
            stopped_at(
                before,
                (SchedulerView { outcomes: before.outcomes, ..after }),
                start,
                appended,
                reached,
                transact,
                cancelled,
                error,
            ),
    };
    lemma_execution_is_sequential(
        program,
        apply,
        initial,
        size,
        transact,
        policy,
        start,
        before.state,
        appended,
        reached,
    );
    assert forall|t: int| 0 <= t < after.outcomes.len() implies #[trigger] after.outcomes[t]
        == outcome_at(program, apply, initial, t) by {
        if t < start {
            assert(after.outcomes[t] == before.outcomes[t]);
        } else {
            assert(after.outcomes[t] == appended[t - start]);
        }
    }
    if let Err(error) = result {
        assert(failed(transact, policy, error.txid, reached, error.error, after.state));
        let given = choose|given: Result<ExecutionResult, EVMError<E>>| {
            &&& #[trigger] call_ensures(transact, (error.txid, reached), (given, after.state))
            &&& outcome_of(policy, given) == Err::<TxExecutionOutcome, EVMError<E>>(error.error)
        };
        assert(call_ensures(transact, (error.txid, reached), (given, after.state)));
        assert(!program.passes(policy, error.txid as int));
    }
}

/// A run that nothing stopped has executed the whole block once its commit role is done: every
/// transaction has its outcome.
pub proof fn law_unstopped_run_is_complete<S, R, E, V>(
    program: Program<V, R>,
    apply: Apply<S, R>,
    block_size: nat,
    initial: S,
    config: GrevmConfig,
    steps: Seq<RunStep<S, R, E, V>>,
)
    requires
        program.deterministic(),
        block_size <= usize::MAX,
        run_legal(program, apply, Run::fresh(block_size, initial, config), steps),
    ensures
        ({
            let view = run_at(
                Run::<S, R, E, V>::fresh(block_size, initial, config),
                steps,
                steps.len() as int,
            ).view;
            view.commit_done() && !view.control.aborted ==> {
                &&& view.outcomes.len() == block_size
                &&& sequential_prefix(program, apply, initial, view.outcomes, view.state)
            }
        }),
{
    let n = steps.len() as int;
    let view = run_at(Run::<S, R, E, V>::fresh(block_size, initial, config), steps, n).view;
    law_runs_are_sound(program, apply, block_size, initial, config, steps, n);
    lemma_described_is_sequential(program, apply, initial, view.outcomes, view.state);
}

/// What the parallel steps of a run leave behind them.
proof fn lemma_stopped_run<S, R, E, V>(
    program: Program<V, R>,
    apply: Apply<S, R>,
    block_size: nat,
    initial: S,
    config: GrevmConfig,
    steps: Seq<RunStep<S, R, E, V>>,
) -> (stopped: SchedulerView<S, R, E>)
    requires
        program.deterministic(),
        block_size <= usize::MAX,
        run_legal(program, apply, Run::fresh(block_size, initial, config), steps),
    ensures
        stopped == run_at(
            Run::<S, R, E, V>::fresh(block_size, initial, config),
            steps,
            steps.len() as int,
        ).view,
        stopped.config == config,
        stopped.states.len() == block_size,
        stopped.outcomes.len() == stopped.ctx.committed <= block_size,
        stopped.prefix_described(ordered_step(program, apply), initial),
        sequential_prefix(program, apply, initial, stopped.outcomes, stopped.state),
        forall|t: int|
            0 <= t < stopped.ctx.committed ==> #[trigger] program.sequential_verdict(
                t,
            ) is Executes,
        stopped.control.reason matches Some(AbortReason::FatalEvmError(txid)) ==> {
            &&& txid < block_size
            &&& txid == stopped.ctx.committed
            &&& program.sequential_verdict(txid as int) is Fails
            &&& stopped.execution_error(txid) matches Some(error) ==> verdict_of(
                Err::<R, EVMError<E>>(error),
            ) is Fails
        },
{
    let n = steps.len() as int;
    let run = run_at(Run::<S, R, E, V>::fresh(block_size, initial, config), steps, n);
    law_runs_are_sound(program, apply, block_size, initial, config, steps, n);
    lemma_described_is_sequential(program, apply, initial, run.view.outcomes, run.view.state);
    reveal(Run::sound);
    assert forall|t: int| 0 <= t < run.view.ctx.finality implies #[trigger] program.sequential_verdict(
        t,
    ) is Executes by {
        law_final_transactions_execute(program, run.found, run.view, t);
    }
    run.view
}

/// Tuning never changes how a block ends: whatever its configuration, its workers and the
/// interleaving of its steps, a run that nobody disturbs ends where sequential execution ends. It
/// succeeds if and only if sequential execution does, it fails at the same transaction and for the
/// same kind of error, and outcomes and state are the sequential ones.
pub proof fn law_run_ends_as_sequential_execution<
    S,
    R,
    E: Clone,
    V,
    T: Fn(TxId, S) -> (Result<ExecutionResult, EVMError<E>>, S),
    C: Fn() -> bool,
>(
    program: Program<V, R>,
    apply: Apply<S, R>,
    block_size: nat,
    initial: S,
    config: GrevmConfig,
    steps: Seq<RunStep<S, R, E, V>>,
    transact: T,
    cancelled: C,
    after: SchedulerView<S, R, E>,
    result: Result<(), GrevmError<E>>,
)
    requires
        program.deterministic(),
        block_size <= usize::MAX,
        run_legal(program, apply, Run::fresh(block_size, initial, config), steps),
        executes_in_order(program, apply, initial, block_size, transact, config.policy()),
        ({
            let stopped = run_at(
                Run::<S, R, E, V>::fresh(block_size, initial, config),
                steps,
                steps.len() as int,
            ).view;
            &&& undisturbed(stopped, cancelled)
            &&& ended(stopped, after, transact, cancelled, result)
        }),
    ensures
        ends_sequentially(
            program,
            apply,
            initial,
            config.policy(),
            block_size,
            after,
            result,
        ),
{
    let stopped = lemma_stopped_run(program, apply, block_size, initial, config, steps);
    let committed = stopped.ctx.committed;
    assert forall|t: int| 0 <= t < committed implies #[trigger] program.passes(
        config.policy(),
        t,
    ) by {
        assert(program.sequential_verdict(t) is Executes);
    }
    if replayed(stopped, after, committed as usize, transact, cancelled, result) {
        law_replay_ends_as_sequential_execution(
            program,
            apply,
            initial,
            stopped,
            after,
            transact,
            cancelled,
            result,
        );
    }
}

/// Two runs of one block on one state under one policy agree, whatever else their configurations
/// say, if nobody disturbs them: both succeed, or both fail at the same transaction, either way
/// because it is invalid or because executing it fails, and they have equal outcomes and equal
/// states.
pub proof fn law_runs_end_alike<
    S,
    R,
    E: Clone,
    V,
    T: Fn(TxId, S) -> (Result<ExecutionResult, EVMError<E>>, S),
    C: Fn() -> bool,
    U: Fn(TxId, S) -> (Result<ExecutionResult, EVMError<E>>, S),
    D: Fn() -> bool,
>(
    program: Program<V, R>,
    apply: Apply<S, R>,
    block_size: nat,
    initial: S,
    config: GrevmConfig,
    steps: Seq<RunStep<S, R, E, V>>,
    transact: T,
    cancelled: C,
    after: SchedulerView<S, R, E>,
    result: Result<(), GrevmError<E>>,
    other_config: GrevmConfig,
    other_steps: Seq<RunStep<S, R, E, V>>,
    other_transact: U,
    other_cancelled: D,
    other_after: SchedulerView<S, R, E>,
    other_result: Result<(), GrevmError<E>>,
)
    requires
        program.deterministic(),
        block_size <= usize::MAX,
        config.policy() == other_config.policy(),
        run_legal(program, apply, Run::fresh(block_size, initial, config), steps),
        run_legal(program, apply, Run::fresh(block_size, initial, other_config), other_steps),
        executes_in_order(program, apply, initial, block_size, transact, config.policy()),
        executes_in_order(program, apply, initial, block_size, other_transact, config.policy()),
        ({
            let stopped = run_at(
                Run::<S, R, E, V>::fresh(block_size, initial, config),
                steps,
                steps.len() as int,
            ).view;
            let other_stopped = run_at(
                Run::<S, R, E, V>::fresh(block_size, initial, other_config),
                other_steps,
                other_steps.len() as int,
            ).view;
            &&& undisturbed(stopped, cancelled)
            &&& ended(stopped, after, transact, cancelled, result)
            &&& undisturbed(other_stopped, other_cancelled)
            &&& ended(other_stopped, other_after, other_transact, other_cancelled, other_result)
        }),
    ensures
        after.outcomes == other_after.outcomes,
        after.state == other_after.state,
        match (result, other_result) {
            (Ok(_), Ok(_)) => after.outcomes.len() == block_size,
            (Err(error), Err(other_error)) => {
                &&& error.txid == other_error.txid
                &&& verdict_of(Err::<R, EVMError<E>>(error.error)) == verdict_of(
                    Err::<R, EVMError<E>>(other_error.error),
                )
            },
            _ => false,
        },
{
    law_run_ends_as_sequential_execution(
        program,
        apply,
        block_size,
        initial,
        config,
        steps,
        transact,
        cancelled,
        after,
        result,
    );
    law_run_ends_as_sequential_execution(
        program,
        apply,
        block_size,
        initial,
        other_config,
        other_steps,
        other_transact,
        other_cancelled,
        other_after,
        other_result,
    );
    let policy = config.policy();
    let a = after.outcomes.len() as int;
    let b = other_after.outcomes.len() as int;
    if a < b {
        assert(program.passes(policy, a));
    }
    if b < a {
        assert(program.passes(policy, b));
    }
    assert(after.outcomes =~= other_after.outcomes) by {
        assert forall|t: int| 0 <= t < a implies after.outcomes[t] == other_after.outcomes[t] by {
            assert(after.outcomes[t] == outcome_at(program, apply, initial, t));
            assert(other_after.outcomes[t] == outcome_at(program, apply, initial, t));
        }
    }
}

/// However a run ends, also when it was stopped, its outcomes belong to the first transactions in
/// block order, the state is the one that they describe, and on success every transaction has its
/// outcome. Every way of committing a transaction is a `step`, and a failing execution hands back
/// the state that it got.
pub proof fn law_every_end_describes_a_prefix<
    S,
    R,
    E: Clone,
    V,
    T: Fn(TxId, S) -> (Result<ExecutionResult, EVMError<E>>, S),
    C: Fn() -> bool,
>(
    program: Program<V, R>,
    apply: Apply<S, R>,
    block_size: nat,
    initial: S,
    config: GrevmConfig,
    steps: Seq<RunStep<S, R, E, V>>,
    transact: T,
    cancelled: C,
    after: SchedulerView<S, R, E>,
    result: Result<(), GrevmError<E>>,
    step: Step<S>,
)
    requires
        program.deterministic(),
        block_size <= usize::MAX,
        run_legal(program, apply, Run::fresh(block_size, initial, config), steps),
        ended(
            run_at(
                Run::<S, R, E, V>::fresh(block_size, initial, config),
                steps,
                steps.len() as int,
            ).view,
            after,
            transact,
            cancelled,
            result,
        ),
        forall|txid: TxId, a: S, outcome: TxExecutionOutcome, b: S| #[trigger]
            ordered_step(program, apply)(txid, a, outcome, b) ==> step(txid, a, outcome, b),
        forall|txid: TxId, a: S, outcome: TxExecutionOutcome, b: S| #[trigger]
            sequential_step(transact, config.policy())(txid, a, outcome, b) ==> step(
                txid,
                a,
                outcome,
                b,
            ),
        forall|txid: TxId, a: S, error: EVMError<E>, b: S| #[trigger]
            failed(transact, config.policy(), txid, a, error, b) ==> b == a,
    ensures
        after.outcomes.len() <= block_size,
        after.prefix_described(step, initial),
        result is Ok ==> after.outcomes.len() == block_size,
{
    let stopped = lemma_stopped_run(program, apply, block_size, initial, config, steps);
    let committed = stopped.ctx.committed as usize;
    let none = Seq::<TxExecutionOutcome>::empty();
    lemma_describes_append(
        step,
        ordered_step(program, apply),
        0,
        initial,
        none,
        initial,
        stopped.outcomes,
        stopped.state,
    );
    assert(none + stopped.outcomes =~= stopped.outcomes);
    if stopped.control.aborted {
        law_recovery_keeps_the_prefix(
            step,
            initial,
            stopped,
            after,
            committed,
            transact,
            cancelled,
            result,
        );
    } else if replayed(stopped, after, committed, transact, cancelled, result) {
        law_replay_keeps_the_prefix(
            step,
            initial,
            stopped,
            after,
            committed,
            transact,
            cancelled,
            result,
        );
    }
}

} // verus!
