//! Histories of parallel runs: every interleaving of the steps of workers, finality and commit.

use crate::commit::CommitOutcome;
use crate::config::GrevmConfig;
use crate::context::ContextView;
use crate::equivalence::{
    faithful, faithful_failure, findings_after, law_boundary_failure_is_sequential, law_claim_keeps_explanations, law_commit_keeps_explanations,
    law_control_keeps_explanations, law_execution_keeps_explanations,
    law_final_transactions_execute, law_finality_keeps_explanations, law_initial_is_explained,
    law_new_location_keeps_explanations, law_parallel_equals_sequential, law_runs_of_a_block_agree,
    law_start_keeps_explanations, law_validation_keeps_explanations, ordered_step, verdict_of,
    Apply, Findings, Program, Values,
};
use crate::model::{AbortReason, ExecutionAttempt, TransactionStatus, TxVersion};
use crate::mv_memory::MemoryView;
use crate::outcome::TxExecutionOutcome;
use crate::prefix::law_commit_keeps_the_prefix;
use crate::scheduler::initial_view;
use crate::scheduler_view::{attempt_conflicts, attempt_located, SchedulerView};
use crate::soundness::{
    law_claim_keeps_soundness, law_commit_finds_an_output, law_control_keeps_soundness,
    law_execution_keeps_soundness, law_finality_keeps_soundness, law_initial_is_sound,
    law_new_location_keeps_soundness, law_start_keeps_soundness, law_validation_keeps_soundness,
    lemma_finalized_next_sound, lemma_without_result, stands,
};
use crate::tx_dependency::TxId;
use vstd::prelude::*;

verus! {

/// A parallel run at one moment.
#[verifier::reject_recursive_types(S)]
#[verifier::reject_recursive_types(R)]
#[verifier::reject_recursive_types(E)]
#[verifier::reject_recursive_types(V)]
pub struct Run<S, R, E, V> {
    /// The scheduler.
    pub view: SchedulerView<S, R, E>,
    /// The values that standing incarnations found.
    pub found: Findings<V>,
    /// The output that was taken for the ordered commit and is not committed yet.
    pub taken: Option<R>,
    /// Per transaction, how many transactions were committed when its current incarnation was
    /// started.
    pub floors: Map<TxId, int>,
}

/// One step of a parallel run. Every public step of the scheduler is one of these, or none of them
/// and changes nothing of what they speak of.
#[verifier::reject_recursive_types(S)]
#[verifier::reject_recursive_types(R)]
#[verifier::reject_recursive_types(E)]
#[verifier::reject_recursive_types(V)]
pub enum RunStep<S, R, E, V> {
    /// The run is started, stopped, woken or counted.
    Control {
        /// The scheduler afterwards.
        after: SchedulerView<S, R, E>,
    },
    /// A location becomes known.
    Locate {
        /// The scheduler afterwards.
        after: SchedulerView<S, R, E>,
    },
    /// A worker is sent to a transaction.
    Start {
        /// The transaction.
        txid: TxId,
    },
    /// A worker claims a transaction for validation.
    Claim {
        /// The search bound.
        execution_idx: usize,
    },
    /// A worker validates a transaction.
    Validate {
        /// The transaction.
        txid: TxId,
    },
    /// A worker finishes an execution.
    Execute {
        /// The incarnation.
        version: TxVersion,
        /// The committed prefix when it began.
        commit_idx: usize,
        /// What the EVM handed back.
        attempt: ExecutionAttempt<R, E>,
        /// What the dependency graph answered.
        next: Option<TxId>,
        /// The values that the execution found.
        values: Values<V>,
    },
    /// The finality role makes transactions final.
    Finalize,
    /// The commit role takes the output of the next final transaction.
    Take,
    /// The commit role commits the output that it took.
    Commit {
        /// The outcome.
        outcome: TxExecutionOutcome,
        /// The state afterwards.
        state: S,
    },
    /// The commit role leaves the output that it took uncommitted.
    Refuse {
        /// Why.
        refusal: CommitOutcome<E>,
    },
}

/// The floors after a worker was sent to `txid`: one that is started builds at least on what is
/// committed then.
pub open spec fn floors_after<S, R, E>(
    floors: Map<TxId, int>,
    view: SchedulerView<S, R, E>,
    txid: TxId,
) -> Map<TxId, int> {
    if view.startable(txid) {
        floors.insert(txid, view.ctx.committed)
    } else {
        floors
    }
}

/// The run was stopped by an execution error.
pub open spec fn is_fatal<E>(reason: Option<AbortReason<E>>) -> bool {
    reason matches Some(AbortReason::FatalEvmError(_))
}

impl<S, R, E, V> Run<S, R, E, V> {
    /// A run that has not started.
    pub open spec fn fresh(block_size: nat, state: S, config: GrevmConfig) -> Run<S, R, E, V> {
        Run {
            view: initial_view(block_size, state, config),
            found: Map::empty(),
            taken: None,
            floors: Map::empty(),
        }
    }

    /// The step can be taken: it is one of the scheduler's, executions that stand are faithful to
    /// the program, and so are those that fail with everything before them committed, and
    /// committing does to the state what it always does.
    #[verifier::opaque]
    pub open spec fn allows(
        self,
        program: Program<V, R>,
        apply: Apply<S, R>,
        step: RunStep<S, R, E, V>,
    ) -> bool {
        let view = self.view;
        match step {
            RunStep::Control { after } => {
                &&& after.config == view.config
                &&& after.state == view.state
                &&& after.outcomes == view.outcomes
                &&& after.states == view.states
                &&& after.results == view.results
                &&& after.memory == view.memory
                &&& after.ctx == view.ctx
                &&& after.finality_lower == view.finality_lower
                &&& after.starts == view.starts
                &&& after.control.reason == view.control.reason || (view.control.reason is None
                    && !is_fatal(after.control.reason))
            },
            RunStep::Locate { after } => {
                &&& view.memory.cells.len() < usize::MAX
                &&& after == (SchedulerView {
                    memory: MemoryView {
                        ids: after.memory.ids,
                        cells: view.memory.cells.push(Map::empty()),
                    },
                    ..view
                })
            },
            RunStep::Start { txid } => txid < view.states.len() && view.starts < usize::MAX,
            RunStep::Claim { .. } => true,
            RunStep::Validate { txid } => {
                &&& txid < view.states.len()
                &&& view.states[txid as int].status == TransactionStatus::Validating
                &&& view.ctx.clock <= usize::MAX - 2
            },
            RunStep::Execute { version, commit_idx, attempt, next, values } => {
                &&& view.headroom()
                &&& commit_idx <= view.ctx.committed
                &&& self.floors.contains_key(version.txid) ==> self.floors[version.txid]
                    <= commit_idx
                &&& view.executing(version)
                &&& attempt_located(attempt, view.memory.cells.len())
                &&& !attempt_conflicts(attempt) ==> faithful(
                    program,
                    self.found,
                    version,
                    attempt,
                    values,
                )
                &&& commit_idx == version.txid ==> match attempt {
                    ExecutionAttempt::Failed { error } => faithful_failure(
                        program,
                        self.found,
                        view.memory.cells,
                        version.txid,
                        error,
                        values,
                    ),
                    ExecutionAttempt::Done { .. } => true,
                }
                &&& next matches Some(txid) ==> txid < view.states.len()
            },
            RunStep::Finalize => true,
            RunStep::Take => self.taken is None && view.commit_pending(),
            RunStep::Commit { outcome, state } => {
                &&& self.taken is Some
                &&& (outcome, state) == apply(view.state, self.taken->0)
            },
            RunStep::Refuse { refusal } => self.taken is Some && !(refusal is Committed),
        }
    }

    /// The run after the step.
    #[verifier::opaque]
    pub open spec fn after(self, step: RunStep<S, R, E, V>) -> Run<S, R, E, V> {
        let view = self.view;
        let committed = view.ctx.committed as usize;
        match step {
            RunStep::Control { after } => Run { view: after, ..self },
            RunStep::Locate { after } => Run { view: after, ..self },
            RunStep::Start { txid } => Run {
                view: view.sent_to(txid),
                floors: floors_after(self.floors, view, txid),
                ..self
            },
            RunStep::Claim { execution_idx } => Run {
                view: view.validation_claimed(execution_idx),
                ..self
            },
            RunStep::Validate { txid } => Run { view: view.validated(txid), ..self },
            RunStep::Execute { version, commit_idx, attempt, next, values } => Run {
                view: view.settled(version, commit_idx, attempt, next),
                found: findings_after(self.found, version, attempt, values),
                floors: if attempt_conflicts(attempt) || next is None {
                    self.floors
                } else {
                    floors_after(
                        self.floors,
                        view.attempted(version, commit_idx, attempt),
                        next->0,
                    )
                },
                ..self
            },
            RunStep::Finalize => Run { view: view.finalized(), ..self },
            RunStep::Take => Run {
                view: view.commit_taken(),
                taken: Some(view.results[view.ctx.committed]->0.outcome->Ok_0),
                ..self
            },
            RunStep::Commit { outcome, state } => Run {
                view: view.commit_finished(
                    committed,
                    CommitOutcome::Committed { outcome },
                    state,
                ),
                taken: None,
                ..self
            },
            RunStep::Refuse { refusal } => Run {
                view: view.commit_finished(committed, refusal, view.state),
                ..self
            },
        }
    }

    /// Every final transaction whose output was not taken still has its result.
    pub open spec fn intact(self) -> bool {
        forall|t: int|
            self.view.ctx.committed <= t < self.view.ctx.finality && (self.taken is None
                || self.view.ctx.committed < t) ==> (#[trigger] self.view.results[t]) is Some
    }

    /// A run that an execution error stopped was stopped at the end of the committed prefix, at a
    /// transaction that fails in sequential execution, too, and any error recorded for it is such a
    /// failure. Whoever executes it once more builds on that prefix.
    pub open spec fn stop_explained(self, program: Program<V, R>) -> bool {
        self.view.control.reason matches Some(AbortReason::FatalEvmError(txid)) ==> {
            &&& txid < self.view.states.len()
            &&& txid <= self.view.ctx.committed
            &&& program.sequential_verdict(txid as int) is Fails
            &&& self.view.results[txid as int] matches Some(result) ==> !(verdict_of(
                result.outcome,
            ) is Invalid)
            &&& self.view.states[txid as int].status == TransactionStatus::Executing ==> {
                &&& self.floors.contains_key(txid)
                &&& txid <= self.floors[txid]
            }
        }
    }

    /// What every moment of a run has: the scheduler is sound and explained by the program, the
    /// outcomes are those of the committed prefix, state and outcomes are what sequential
    /// execution makes of the state before the block, an output that was taken is the sequential
    /// one, and so is an error that stopped the run.
    #[verifier::opaque]
    pub open spec fn sound(
        self,
        program: Program<V, R>,
        apply: Apply<S, R>,
        initial: S,
    ) -> bool {
        &&& self.view.sound()
        &&& self.view.explained(program, self.found)
        &&& self.view.outcomes.len() == self.view.ctx.committed
        &&& self.view.prefix_described(ordered_step(program, apply), initial)
        &&& self.intact()
        &&& self.stop_explained(program)
        &&& self.taken matches Some(output) ==> {
            &&& self.view.commit_pending()
            &&& output == program.sequential_effect(self.view.ctx.committed).output
        }
    }
}

/// The run after the first `count` of `steps`.
pub open spec fn run_at<S, R, E, V>(
    start: Run<S, R, E, V>,
    steps: Seq<RunStep<S, R, E, V>>,
    count: int,
) -> Run<S, R, E, V>
    decreases count,
{
    if count <= 0 {
        start
    } else {
        run_at(start, steps, count - 1).after(steps[count - 1])
    }
}

/// Every step can be taken where it is.
pub open spec fn run_legal<S, R, E, V>(
    program: Program<V, R>,
    apply: Apply<S, R>,
    start: Run<S, R, E, V>,
    steps: Seq<RunStep<S, R, E, V>>,
) -> bool {
    forall|i: int|
        0 <= i < steps.len() ==> run_at(start, steps, i).allows(
            program,
            apply,
            #[trigger] steps[i],
        )
}

/// Making transactions final touches no result, and every one that becomes final has one.
proof fn lemma_finalized_results<S, R, E>(view: SchedulerView<S, R, E>)
    requires
        view.sound(),
    ensures
        view.finalized().results == view.results,
        view.finalized().state == view.state,
        view.finalized().outcomes == view.outcomes,
        view.finalized().ctx.committed == view.ctx.committed,
        view.finalized().config == view.config,
        view.finalized().control.reason == view.control.reason,
        view.finalized().states.len() == view.states.len(),
        view.ctx.finality <= view.finalized().ctx.finality,
        forall|t: int|
            view.ctx.finality <= t < view.finalized().ctx.finality ==> (
            #[trigger] view.results[t]) is Some,
        forall|t: int|
            0 <= t < view.states.len() && (#[trigger] view.finalized().states[t]).status
                == TransactionStatus::Executing ==> view.states[t].status
                == TransactionStatus::Executing,
    decreases view.states.len() - view.ctx.finality,
{
    if view.finality_candidate() is Some {
        assert(stands(view.states[view.ctx.finality].status));
        assert(view.results[view.ctx.finality] is Some);
        lemma_finalized_next_sound(view);
        lemma_finalized_results(view.finalized_next());
    }
}

/// Steps that touch neither what is committed nor what is final keep the rest of a sound run.
proof fn lemma_prefix_untouched<S, R, E, V>(
    program: Program<V, R>,
    apply: Apply<S, R>,
    initial: S,
    before: Run<S, R, E, V>,
    after: Run<S, R, E, V>,
)
    requires
        before.sound(program, apply, initial),
        after.view.sound(),
        after.view.explained(program, after.found),
        after.taken == before.taken,
        after.stop_explained(program),
        after.view.state == before.view.state,
        after.view.outcomes == before.view.outcomes,
        after.view.ctx.committed == before.view.ctx.committed,
        after.view.ctx.finality == before.view.ctx.finality,
        forall|t: int|
            0 <= t < before.view.ctx.finality ==> #[trigger] after.view.results[t]
                == before.view.results[t],
    ensures
        after.sound(program, apply, initial),
{
    reveal(Run::sound);
}

/// Every step keeps a stop by an execution error explained.
proof fn lemma_stop_stays_explained<S, R, E, V>(
    program: Program<V, R>,
    apply: Apply<S, R>,
    initial: S,
    before: Run<S, R, E, V>,
    step: RunStep<S, R, E, V>,
)
    requires
        program.deterministic(),
        before.sound(program, apply, initial),
        before.allows(program, apply, step),
    ensures
        before.after(step).stop_explained(program),
{
    reveal(Run::allows);
    reveal(Run::after);
    reveal(Run::sound);
    let view = before.view;
    let found = before.found;
    let after = before.after(step);
    if let Some(AbortReason::FatalEvmError(stop)) = view.control.reason {
        if view.ctx.finality > stop {
            law_final_transactions_execute(program, found, view, stop as int);
        }
    }
    match step {
        RunStep::Execute { version, commit_idx, attempt, next, values } => {
            assert(view.states[version.txid as int].status == TransactionStatus::Executing);
            assert(view.ctx.finality <= version.txid);
            if let ExecutionAttempt::Failed { error } = attempt {
                if commit_idx == version.txid {
                    law_boundary_failure_is_sequential(program, found, view, error, values);
                }
            }
            if let Some(AbortReason::FatalEvmError(stop)) = after.view.control.reason {
                if is_fatal(view.control.reason) {
                    assert(view.control.reason == after.view.control.reason);
                    if version.txid == stop {
                        assert(commit_idx == stop);
                    }
                } else {
                    assert(attempt is Failed && stop == version.txid);
                    assert(view.ctx.finality == stop);
                }
            }
        },
        RunStep::Finalize => {
            lemma_finalized_results(view);
        },
        RunStep::Take => {
            assert(view.intact());
            law_commit_finds_an_output(view);
        },
        _ => {},
    }
}

/// Every step keeps a run sound.
proof fn lemma_step_keeps_soundness<S, R, E, V>(
    program: Program<V, R>,
    apply: Apply<S, R>,
    initial: S,
    before: Run<S, R, E, V>,
    step: RunStep<S, R, E, V>,
)
    requires
        program.deterministic(),
        before.sound(program, apply, initial),
        before.allows(program, apply, step),
    ensures
        before.after(step).sound(program, apply, initial),
        before.after(step).view.config == before.view.config,
        before.after(step).view.states.len() == before.view.states.len(),
{
    reveal(Run::allows);
    reveal(Run::after);
    reveal(Run::sound);
    let view = before.view;
    let found = before.found;
    let after = before.after(step);
    lemma_stop_stays_explained(program, apply, initial, before, step);
    match step {
        RunStep::Control { after: next } => {
            law_control_keeps_soundness(view, next);
            law_control_keeps_explanations(program, found, view, next);
            lemma_prefix_untouched(program, apply, initial, before, after);
        },
        RunStep::Locate { after: next } => {
            law_new_location_keeps_soundness(view, next);
            law_new_location_keeps_explanations(program, found, view, next);
            lemma_prefix_untouched(program, apply, initial, before, after);
        },
        RunStep::Start { txid } => {
            law_start_keeps_soundness(view, txid);
            law_start_keeps_explanations(program, found, view, txid);
            lemma_prefix_untouched(program, apply, initial, before, after);
        },
        RunStep::Claim { execution_idx } => {
            law_claim_keeps_soundness(view, execution_idx);
            law_claim_keeps_explanations(program, found, view, execution_idx);
            lemma_prefix_untouched(program, apply, initial, before, after);
        },
        RunStep::Validate { txid } => {
            law_validation_keeps_soundness(view, txid);
            law_validation_keeps_explanations(program, found, view, txid);
            lemma_prefix_untouched(program, apply, initial, before, after);
        },
        RunStep::Execute { version, commit_idx, attempt, next, values } => {
            law_execution_keeps_soundness(view, version, commit_idx, attempt, next);
            law_execution_keeps_explanations(
                program,
                found,
                view,
                version,
                commit_idx,
                attempt,
                next,
                values,
            );
            assert(view.states[version.txid as int].status == TransactionStatus::Executing);
            assert(view.ctx.finality <= version.txid);
            lemma_prefix_untouched(program, apply, initial, before, after);
        },
        RunStep::Finalize => {
            law_finality_keeps_soundness(view);
            law_finality_keeps_explanations(program, found, view);
            lemma_finalized_results(view);
            assert forall|t: int|
                after.view.ctx.committed <= t < after.view.ctx.finality && (after.taken is None
                    || after.view.ctx.committed < t) implies (
            #[trigger] after.view.results[t]) is Some by {
                assert(view.results[t] is Some);
            }
        },
        RunStep::Take => {
            let txid = view.ctx.committed;
            assert(view.intact());
            law_commit_finds_an_output(view);
            law_parallel_equals_sequential(program, found, view, txid, 0);
            law_commit_keeps_explanations(program, found, view, after.view);
        },
        RunStep::Commit { outcome, state } => {
            lemma_committed(program, apply, initial, before, outcome, state);
        },
        RunStep::Refuse { .. } => {
            law_control_keeps_soundness(view, after.view);
            law_control_keeps_explanations(program, found, view, after.view);
            lemma_prefix_untouched(program, apply, initial, before, after);
        },
    }
}

/// Committing the output that was taken keeps a run sound.
proof fn lemma_committed<S, R, E, V>(
    program: Program<V, R>,
    apply: Apply<S, R>,
    initial: S,
    before: Run<S, R, E, V>,
    outcome: TxExecutionOutcome,
    state: S,
)
    requires
        before.sound(program, apply, initial),
        before.taken is Some,
        (outcome, state) == apply(before.view.state, before.taken->0),
        before.after(RunStep::Commit { outcome, state }).stop_explained(program),
    ensures
        before.after(RunStep::Commit { outcome, state }).sound(program, apply, initial),
{
    reveal(Run::after);
    reveal(Run::sound);
    let view = before.view;
    let txid = view.ctx.committed;
    let after = before.after(RunStep::Commit { outcome, state });
    let step = ordered_step(program, apply);
    assert(step(txid as usize, view.state, outcome, state));
    law_commit_keeps_the_prefix(
        step,
        initial,
        view,
        txid as usize,
        (CommitOutcome::Committed { outcome }),
        state,
    );
    let without = SchedulerView { results: view.results.update(txid, None), ..after.view };
    lemma_without_result(view, without, txid);
    assert(after.view.ctx == (ContextView { committed: txid + 1, ..view.ctx }));
    lemma_result_restored(view, without, after.view, txid);
    law_control_keeps_explanations(program, before.found, view, after.view);
}

/// Moving the committed prefix on keeps soundness.
proof fn lemma_result_restored<S, R, E>(
    before: SchedulerView<S, R, E>,
    without: SchedulerView<S, R, E>,
    after: SchedulerView<S, R, E>,
    txid: int,
)
    requires
        before.sound(),
        without.sound(),
        0 <= txid < before.ctx.finality,
        after.states == before.states,
        after.results == before.results,
        after.memory == before.memory,
        after.finality_lower == before.finality_lower,
        after.ctx == without.ctx,
        without.states == before.states,
        after.ctx == (ContextView { committed: txid + 1, ..before.ctx }),
    ensures
        after.sound(),
{
    let same = SchedulerView { ctx: before.ctx, ..after };
    law_control_keeps_soundness(before, same);
    assert(after.cursors_sound());
    assert(after.clock_sound());
    assert(after.memory_sound()) by {
        assert(same.memory_sound());
    }
    assert(after.results_sound()) by {
        assert(same.results_sound());
    }
    assert(after.reads_sound()) by {
        assert forall|t: int|
            0 <= t < after.states.len() && (#[trigger] after.results[t]) is Some && (t
                < after.ctx.finality || (after.states[t].status == TransactionStatus::Unconfirmed
                && t < after.ctx.validation
                && after.validated_since_rollback(t))) implies crate::mv_memory::reads_valid(
            after.memory.cells,
            t as usize,
            after.results[t]->0.reads,
        ) by {
            assert(same.results[t] is Some);
            if t >= same.ctx.finality {
                assert forall|r: int| 0 <= r <= t implies #[trigger] same.ctx.lower[r]
                    < same.ctx.unconfirmed[t] by {
                    assert(after.ctx.lower[r] < after.ctx.unconfirmed[t]);
                }
                assert(same.validated_since_rollback(t));
            }
        }
    }
}

/// A run that has not started is sound.
proof fn lemma_fresh_is_sound<S, R, E, V>(
    program: Program<V, R>,
    apply: Apply<S, R>,
    block_size: nat,
    initial: S,
    config: GrevmConfig,
)
    requires
        block_size <= usize::MAX,
    ensures
        Run::<S, R, E, V>::fresh(block_size, initial, config).sound(program, apply, initial),
        Run::<S, R, E, V>::fresh(block_size, initial, config).view.config == config,
        Run::<S, R, E, V>::fresh(block_size, initial, config).view.states.len() == block_size,
{
    reveal(Run::sound);
    law_initial_is_sound::<S, R, E>(block_size, initial, config);
    law_initial_is_explained::<S, R, E, V>(program, block_size, initial, config);
}

/// What a sound run says about its outcomes and its state.
proof fn lemma_sound_prefix<S, R, E, V>(
    program: Program<V, R>,
    apply: Apply<S, R>,
    initial: S,
    run: Run<S, R, E, V>,
)
    requires
        run.sound(program, apply, initial),
    ensures
        run.view.prefix_described(ordered_step(program, apply), initial),
        run.view.outcomes.len() == run.view.ctx.committed,
        0 <= run.view.ctx.committed <= run.view.states.len() <= usize::MAX,
{
    reveal(Run::sound);
}

/// A sound run that goes on from a sound one stays so.
proof fn lemma_runs_are_sound<S, R, E, V>(
    program: Program<V, R>,
    apply: Apply<S, R>,
    initial: S,
    start: Run<S, R, E, V>,
    steps: Seq<RunStep<S, R, E, V>>,
    moment: int,
)
    requires
        program.deterministic(),
        start.sound(program, apply, initial),
        run_legal(program, apply, start, steps),
        0 <= moment <= steps.len(),
    ensures
        run_at(start, steps, moment).sound(program, apply, initial),
        run_at(start, steps, moment).view.config == start.view.config,
        run_at(start, steps, moment).view.states.len() == start.view.states.len(),
    decreases moment,
{
    if moment > 0 {
        lemma_runs_are_sound(program, apply, initial, start, steps, moment - 1);
        let before = run_at(start, steps, moment - 1);
        assert(before.allows(program, apply, steps[moment - 1]));
        lemma_step_keeps_soundness(program, apply, initial, before, steps[moment - 1]);
    }
}

/// Every parallel run is sound at every moment, however the steps of its roles interleave. In
/// particular its outcomes and its state are what sequential execution makes of the transactions
/// that it committed.
pub proof fn law_runs_are_sound<S, R, E, V>(
    program: Program<V, R>,
    apply: Apply<S, R>,
    block_size: nat,
    initial: S,
    config: GrevmConfig,
    steps: Seq<RunStep<S, R, E, V>>,
    moment: int,
)
    requires
        program.deterministic(),
        block_size <= usize::MAX,
        run_legal(program, apply, Run::fresh(block_size, initial, config), steps),
        0 <= moment <= steps.len(),
    ensures
        ({
            let run = run_at(Run::fresh(block_size, initial, config), steps, moment);
            &&& run.sound(program, apply, initial)
            &&& run.view.config == config
            &&& run.view.states.len() == block_size
            &&& run.view.outcomes.len() == run.view.ctx.committed <= block_size
            &&& run.view.prefix_described(ordered_step(program, apply), initial)
        }),
{
    let start = Run::<S, R, E, V>::fresh(block_size, initial, config);
    lemma_fresh_is_sound::<S, R, E, V>(program, apply, block_size, initial, config);
    lemma_runs_are_sound(program, apply, initial, start, steps, moment);
    lemma_sound_prefix(program, apply, initial, run_at(start, steps, moment));
}

/// Tuning never changes what a block does: two parallel runs of one block on one state, with
/// whatever configurations, workers and interleavings, have equal outcomes and equal states once
/// they committed equally many transactions.
pub proof fn law_parallel_runs_agree<S, R, E, V>(
    program: Program<V, R>,
    apply: Apply<S, R>,
    block_size: nat,
    initial: S,
    config: GrevmConfig,
    steps: Seq<RunStep<S, R, E, V>>,
    other_config: GrevmConfig,
    other_steps: Seq<RunStep<S, R, E, V>>,
)
    requires
        program.deterministic(),
        block_size <= usize::MAX,
        run_legal(program, apply, Run::fresh(block_size, initial, config), steps),
        run_legal(program, apply, Run::fresh(block_size, initial, other_config), other_steps),
    ensures
        ({
            let a = run_at(
                Run::fresh(block_size, initial, config),
                steps,
                steps.len() as int,
            ).view;
            let b = run_at(
                Run::fresh(block_size, initial, other_config),
                other_steps,
                other_steps.len() as int,
            ).view;
            a.ctx.committed == b.ctx.committed ==> a.outcomes == b.outcomes && a.state == b.state
        }),
{
    let n = steps.len() as int;
    let m = other_steps.len() as int;
    law_runs_are_sound(program, apply, block_size, initial, config, steps, n);
    law_runs_are_sound(program, apply, block_size, initial, other_config, other_steps, m);
    let a = run_at(Run::fresh(block_size, initial, config), steps, n).view;
    let b = run_at(Run::fresh(block_size, initial, other_config), other_steps, m).view;
    if a.ctx.committed == b.ctx.committed {
        law_runs_of_a_block_agree(
            program,
            apply,
            initial,
            a.outcomes,
            a.state,
            b.outcomes,
            b.state,
        );
    }
}

} // verus!
