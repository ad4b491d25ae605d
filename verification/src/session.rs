//! Reusable block execution session for ordered transaction batches.

use crate::config::{GrevmConfig, GrevmConfigError};
use crate::control::SchedulerExecutionError;
use crate::outcome::{GrevmError, TxExecutionOutcome};
use crate::prefix::{describes, Step};
use crate::text::{decimal, push_decimal};
use revm_context::result::EVMError;
use vstd::prelude::*;
use vstd::string::StringExecFns;

verus! {

/// The canonical result of executing one ordered transaction batch.
///
/// Every non-invariant variant owns the ordered outcomes that match the state retained by
/// [`ExecutionSession`]. A processed prefix can contain [`TxExecutionOutcome::Skipped`]
/// candidates, which do not mutate state.
#[derive(Debug)]
#[must_use]
pub enum BatchExecutionResult<DBError> {
    /// Every candidate in the batch reached a final ordered outcome and no interruption was
    /// observed.
    Complete(Vec<TxExecutionOutcome>),
    /// A cancellation check stopped execution after processing a contiguous candidate prefix.
    Interrupted {
        /// Outcomes corresponding exactly to the processed candidate prefix retained by the
        /// session.
        processed_prefix: Vec<TxExecutionOutcome>,
    },
    /// Execution failed after processing a contiguous candidate prefix.
    Failed {
        /// Outcomes corresponding exactly to the processed candidate prefix retained by the
        /// session.
        processed_prefix: Vec<TxExecutionOutcome>,
        /// The error that stopped execution.
        error: GrevmError<DBError>,
    },
    /// The scheduler returned an internally inconsistent outcome count. The session is poisoned
    /// and no longer exposes or accepts state after this result.
    InvariantViolation {
        /// The invariant error that invalidated the session.
        error: GrevmError<DBError>,
    },
}

impl<DBError> BatchExecutionResult<DBError> {
    /// The outcomes that the session's state represents.
    pub open spec fn processed(self) -> Option<Seq<TxExecutionOutcome>> {
        match self {
            BatchExecutionResult::Complete(outcomes) => Some(outcomes@),
            BatchExecutionResult::Interrupted { processed_prefix } => Some(processed_prefix@),
            BatchExecutionResult::Failed { processed_prefix, .. } => Some(processed_prefix@),
            BatchExecutionResult::InvariantViolation { .. } => None,
        }
    }

    /// Returns the ordered outcomes represented by the session's current state, or `None` if an
    /// invariant violation poisoned the session.
    pub fn processed_outcomes(&self) -> (outcomes: Option<&[TxExecutionOutcome]>)
        ensures
            match outcomes {
                Some(outcomes) => self.processed() == Some(outcomes@),
                None => self.processed() is None,
            },
    {
        match self {
            BatchExecutionResult::Complete(outcomes) => Some(outcomes.as_slice()),
            BatchExecutionResult::Interrupted { processed_prefix } => Some(
                processed_prefix.as_slice(),
            ),
            BatchExecutionResult::Failed { processed_prefix, .. } => Some(
                processed_prefix.as_slice(),
            ),
            BatchExecutionResult::InvariantViolation { .. } => None,
        }
    }

    /// Returns whether every candidate reached a final ordered outcome without an interruption.
    pub fn is_complete(&self) -> (complete: bool)
        ensures
            complete == (self is Complete),
    {
        match self {
            BatchExecutionResult::Complete(_) => true,
            _ => false,
        }
    }
}

/// What a scheduler hands back after a batch.
pub struct BatchRun<S, E> {
    /// How the run ended.
    pub status: Result<(), SchedulerExecutionError<E>>,
    /// The outcomes of the processed prefix.
    pub outcomes: Vec<TxExecutionOutcome>,
    /// The state after the processed prefix.
    pub state: S,
}

/// The number of outcomes contradicts the way the run ended.
pub open spec fn inconsistent<S, E>(run: BatchRun<S, E>, transaction_count: usize) -> bool {
    run.outcomes@.len() > transaction_count || (run.status is Ok && run.outcomes@.len()
        != transaction_count)
}

/// The text that reports an inconsistent number of outcomes.
pub open spec fn inconsistent_text(outcomes: nat, transactions: nat) -> Seq<char> {
    "scheduler completed with "@ + decimal(outcomes) + " outcomes for "@ + decimal(transactions)
        + " transactions"@
}

fn inconsistent_message(outcomes: usize, transactions: usize) -> (message: String)
    ensures
        message@ == inconsistent_text(outcomes as nat, transactions as nat),
{
    let mut message = "scheduler completed with ".to_owned();
    push_decimal(&mut message, outcomes);
    message.append(" outcomes for ");
    push_decimal(&mut message, transactions);
    message.append(" transactions");
    message
}

/// What a batch makes of a run: the result for the caller, and the state that the session keeps.
pub open spec fn batch_follows<S, E>(
    run: BatchRun<S, E>,
    transaction_count: usize,
    result: BatchExecutionResult<E>,
    state: Option<S>,
) -> bool {
    if inconsistent(run, transaction_count) {
        let outcomes = run.outcomes@.len();
        &&& state is None
        &&& match result {
            BatchExecutionResult::InvariantViolation { error } => {
                &&& error.txid == if transaction_count == 0 {
                    0
                } else if outcomes < transaction_count {
                    outcomes as int
                } else {
                    transaction_count - 1
                }
                &&& match error.error {
                    EVMError::Custom(message) => message@ == inconsistent_text(
                        outcomes,
                        transaction_count as nat,
                    ),
                    _ => false,
                }
            },
            _ => false,
        }
    } else {
        &&& state == Some(run.state)
        &&& result.processed() == Some(run.outcomes@)
        &&& match run.status {
            Ok(_) => result is Complete,
            Err(SchedulerExecutionError::Interrupted) => result is Interrupted,
            Err(SchedulerExecutionError::Failed(error)) => match result {
                BatchExecutionResult::Failed { error: reported, .. } => reported == error,
                _ => false,
            },
        }
    }
}

/// Block-scoped execution state shared by multiple ordered transaction batches.
///
/// A session owns the canonical state and the scheduler configuration for the lifetime of one
/// block. Each batch runs on a fresh one-shot scheduler, whose canonical state is then restored
/// into the session, so that it continues across batches.
pub struct ExecutionSession<S> {
    state: Option<S>,
    config: GrevmConfig,
}

impl<S> ExecutionSession<S> {
    /// The canonical state; missing after an invariant violation.
    pub closed spec fn held(&self) -> Option<S> {
        self.state
    }

    /// The scheduler configuration.
    pub closed spec fn configured(&self) -> GrevmConfig {
        self.config
    }

    /// Create a block-scoped execution session.
    pub fn new(state: S, config: GrevmConfig) -> (session: Self)
        requires
            config.tuning().concurrency_level > 0,
        ensures
            session.held() == Some(state),
            session.configured() == config,
    {
        ExecutionSession { state: Some(state), config }
    }

    /// Create a block-scoped execution session, or tell why the configuration is invalid.
    pub fn try_new(state: S, config: GrevmConfig) -> (session: Result<Self, GrevmConfigError>)
        ensures
            match session {
                Ok(session) => {
                    &&& config.tuning().concurrency_level > 0
                    &&& session.held() == Some(state)
                    &&& session.configured() == config
                },
                Err(error) => {
                    &&& config.tuning().concurrency_level == 0
                    &&& error == GrevmConfigError::ZeroConcurrency
                },
            },
    {
        match config.validate() {
            Ok(()) => Ok(ExecutionSession::new(state, config)),
            Err(error) => Err(error),
        }
    }

    /// Whether the session still holds its state.
    pub fn is_available(&self) -> (available: bool)
        ensures
            available == (self.held() is Some),
    {
        self.state.is_some()
    }

    /// The scheduler configuration.
    pub fn config(&self) -> (config: GrevmConfig)
        ensures
            config == self.configured(),
    {
        self.config
    }

    /// Returns the canonical state accumulated by every completed batch.
    pub fn state(&self) -> (state: &S)
        requires
            self.held() is Some,
        ensures
            *state == self.held()->0,
    {
        self.state.as_ref().unwrap()
    }

    /// Returns mutable access to the canonical state between batch executions.
    pub fn state_mut(&mut self) -> (state: &mut S)
        requires
            old(self).held() is Some,
        ensures
            *state == old(self).held()->0,
            final(self).held() == Some(*final(state)),
            final(self).configured() == old(self).configured(),
    {
        self.state.as_mut().unwrap()
    }

    /// Consume the session and return its canonical state.
    pub fn into_state(self) -> (state: S)
        requires
            self.held() is Some,
        ensures
            state == self.held()->0,
    {
        self.state.unwrap()
    }

    /// Execute one ordered candidate batch using this session's scheduler configuration. `run`
    /// executes the batch on the session's state and hands back what the scheduler produced.
    pub fn execute_batch<
        E,
        F: FnOnce(S, GrevmConfig) -> (Result<(), GrevmError<E>>, Vec<TxExecutionOutcome>, S),
    >(&mut self, transaction_count: usize, run: F) -> (result: BatchExecutionResult<E>)
        requires
            old(self).held() is Some,
            call_requires(run, (old(self).held()->0, old(self).configured())),
        ensures
            final(self).configured() == old(self).configured(),
            exists|
                status: Result<(), GrevmError<E>>,
                outcomes: Vec<TxExecutionOutcome>,
                state: S,
            | {
                &&& #[trigger] call_ensures(
                    run,
                    (old(self).held()->0, old(self).configured()),
                    (status, outcomes, state),
                )
                &&& batch_follows(
                    (BatchRun::<S, E> {
                        status: match status {
                            Ok(_) => Ok(()),
                            Err(error) => Err(SchedulerExecutionError::Failed(error)),
                        },
                        outcomes,
                        state,
                    }),
                    transaction_count,
                    result,
                    final(self).held(),
                )
            },
    {
        let state: S = self.state.take().unwrap();
        let (status, outcomes, state) = run(state, self.config);
        let status: Result<(), SchedulerExecutionError<E>> = match status {
            Ok(()) => Ok(()),
            Err(error) => Err(SchedulerExecutionError::Failed(error)),
        };
        self.execute_batch_inner(transaction_count, BatchRun { status, outcomes, state })
    }

    /// Execute one ordered candidate batch that the caller may cancel. `run` executes the batch on
    /// the session's state, polling the caller's check, and hands back what the scheduler
    /// produced.
    pub fn execute_batch_with_cancellation<E, F: FnOnce(S, GrevmConfig) -> BatchRun<S, E>>(
        &mut self,
        transaction_count: usize,
        run: F,
    ) -> (result: BatchExecutionResult<E>)
        requires
            old(self).held() is Some,
            call_requires(run, (old(self).held()->0, old(self).configured())),
        ensures
            final(self).configured() == old(self).configured(),
            exists|output: BatchRun<S, E>| {
                &&& #[trigger] call_ensures(
                    run,
                    (old(self).held()->0, old(self).configured()),
                    output,
                )
                &&& batch_follows(output, transaction_count, result, final(self).held())
            },
    {
        let state: S = self.state.take().unwrap();
        let output: BatchRun<S, E> = run(state, self.config);
        self.execute_batch_inner(transaction_count, output)
    }

    /// Restores the canonical state after a run and reports it; an inconsistent number of outcomes
    /// poisons the session instead.
    fn execute_batch_inner<E>(
        &mut self,
        transaction_count: usize,
        run: BatchRun<S, E>,
    ) -> (result: BatchExecutionResult<E>)
        requires
            old(self).held() is None,
        ensures
            final(self).configured() == old(self).configured(),
            batch_follows(run, transaction_count, result, final(self).held()),
    {
        let BatchRun { status, outcomes, state } = run;
        let outcome_count: usize = outcomes.len();
        if outcome_count > transaction_count || (status.is_ok() && outcome_count
            != transaction_count) {
            let last: usize = if transaction_count > 0 {
                transaction_count - 1
            } else {
                0
            };
            return BatchExecutionResult::InvariantViolation {
                error: GrevmError {
                    txid: if outcome_count < last {
                        outcome_count
                    } else {
                        last
                    },
                    error: EVMError::Custom(inconsistent_message(outcome_count, transaction_count)),
                },
            };
        }
        self.state = Some(state);
        match status {
            Ok(()) => BatchExecutionResult::Complete(outcomes),
            Err(SchedulerExecutionError::Interrupted) => BatchExecutionResult::Interrupted {
                processed_prefix: outcomes,
            },
            Err(SchedulerExecutionError::Failed(error)) => BatchExecutionResult::Failed {
                processed_prefix: outcomes,
                error,
            },
        }
    }
}

/// A session keeps exactly the state that the processed outcomes describe: it holds the state of
/// the run whenever outcomes are reported, all of them for a complete batch, and nothing after an
/// invariant violation.
pub proof fn law_state_matches_reported_outcomes<S, E>(
    run: BatchRun<S, E>,
    transaction_count: usize,
    result: BatchExecutionResult<E>,
    state: Option<S>,
)
    requires
        batch_follows(run, transaction_count, result, state),
    ensures
        state is Some <==> result.processed() is Some,
        state is Some ==> state == Some(run.state) && result.processed() == Some(run.outcomes@),
        result is Complete ==> run.outcomes@.len() == transaction_count,
        result.processed() matches Some(outcomes) ==> outcomes.len() <= transaction_count,
{
}

/// How a batch reports its run. A run with more outcomes than candidates, or one that ended well
/// with fewer, is reported as a violation that names a candidate, and the session keeps no state.
/// Any other is reported as it ended, however many outcomes it has: complete if it ended well,
/// interrupted if it was interrupted, and failed with exactly its error if it failed; each with
/// exactly its outcomes, and the session keeps its state.
pub proof fn law_batch_reports_how_the_run_ended<S, E>(
    run: BatchRun<S, E>,
    transaction_count: usize,
    result: BatchExecutionResult<E>,
    state: Option<S>,
)
    requires
        batch_follows(run, transaction_count, result, state),
    ensures
        ({
            let count = run.outcomes@.len();
            let consistent = count == transaction_count || (count < transaction_count && run.status
                is Err);
            &&& result is InvariantViolation <==> !consistent
            &&& consistent ==> {
                &&& result is Complete <==> run.status is Ok
                &&& result is Interrupted <==> run.status is Err && run.status->Err_0
                    is Interrupted
                &&& result is Failed <==> run.status is Err && run.status->Err_0 is Failed
                &&& state == Some(run.state)
                &&& match result {
                    BatchExecutionResult::Complete(outcomes) => outcomes@ == run.outcomes@,
                    BatchExecutionResult::Interrupted { processed_prefix } => processed_prefix@
                        == run.outcomes@,
                    BatchExecutionResult::Failed { processed_prefix, error } => {
                        &&& processed_prefix@ == run.outcomes@
                        &&& run.status->Err_0 == SchedulerExecutionError::Failed(error)
                    },
                    BatchExecutionResult::InvariantViolation { .. } => false,
                }
            }
            &&& !consistent ==> {
                &&& state is None
                &&& result matches BatchExecutionResult::InvariantViolation { error } && {
                    &&& error.error matches EVMError::Custom(message) && message@
                        == "scheduler completed with "@ + decimal(count) + " outcomes for "@
                        + decimal(transaction_count as nat) + " transactions"@
                    &&& transaction_count > 0 ==> error.txid < transaction_count
                    &&& count < transaction_count ==> error.txid == count
                    &&& count > transaction_count && transaction_count > 0 ==> error.txid
                        == transaction_count - 1
                }
            }
        }),
{
}

/// What a result reports as processed is the list that it carries; a violation carries none.
pub proof fn law_processed_outcomes_are_those_carried<E>(result: BatchExecutionResult<E>)
    ensures
        match result {
            BatchExecutionResult::Complete(outcomes) => result.processed() == Some(outcomes@),
            BatchExecutionResult::Interrupted { processed_prefix } => result.processed() == Some(
                processed_prefix@,
            ),
            BatchExecutionResult::Failed { processed_prefix, error } => result.processed() == Some(
                processed_prefix@,
            ),
            BatchExecutionResult::InvariantViolation { error } => result.processed() is None,
        },
{
}

/// A session keeps state and outcomes in step: if the outcomes of a run describe how the session's
/// state became the one that the run handed back, the reported outcomes describe how it became the
/// one that the session keeps.
pub proof fn law_session_keeps_the_prefix<S, E>(
    step: Step<S>,
    before: S,
    run: BatchRun<S, E>,
    transaction_count: usize,
    result: BatchExecutionResult<E>,
    state: Option<S>,
)
    requires
        batch_follows(run, transaction_count, result, state),
        describes(step, 0, before, run.outcomes@, run.state),
    ensures
        result.processed() matches Some(outcomes) ==> state is Some && describes(
            step,
            0,
            before,
            outcomes,
            state->0,
        ),
{
}

} // verus!
