//! Versions, statuses and results of speculative transaction incarnations.

use crate::outcome::GrevmError;
use crate::read_set::{versions, ReadSet};
use crate::tx_dependency::TxId;
use crate::tx_set::members;
use ahash::AHashSet;
use revm_context::result::EVMError;
use vstd::prelude::*;

verus! {

/// Dense number of a storage location in multi-version memory.
pub type LocationId = usize;

/// One incarnation of one transaction.
#[derive(Debug, Clone, Copy, PartialEq, Eq, Structural)]
pub struct TxVersion {
    /// The transaction.
    pub txid: TxId,
    /// How often it was started.
    pub incarnation: usize,
}

impl TxVersion {
    /// The given incarnation of a transaction.
    pub fn new(txid: TxId, incarnation: usize) -> (version: Self)
        ensures
            version == (TxVersion { txid, incarnation }),
    {
        TxVersion { txid, incarnation }
    }
}

/// Where a transaction stands.
#[derive(Debug, Clone, Copy, PartialEq, Eq, Structural)]
pub enum TransactionStatus {
    /// Never started.
    Initial,
    /// A worker executes it.
    Executing,
    /// Executed without a visible conflict, not yet validated.
    Executed,
    /// A worker validates it.
    Validating,
    /// Validated, not yet final.
    Unconfirmed,
    /// Has to be executed again.
    Conflict,
    /// Its result is final.
    Finality,
}

/// The scheduling state of one transaction.
#[derive(Debug, Clone, Copy, PartialEq, Eq, Structural)]
pub struct TxState {
    /// Where the transaction stands.
    pub status: TransactionStatus,
    /// How often it was started.
    pub incarnation: usize,
    /// The latest transaction that it was found to depend on.
    pub dependency: Option<TxId>,
}

impl Default for TxState {
    fn default() -> (state: Self)
        ensures
            state == initial_state(),
    {
        TxState { status: TransactionStatus::Initial, incarnation: 0, dependency: None }
    }
}

/// The state of a transaction that was never started.
pub open spec fn initial_state() -> TxState {
    TxState { status: TransactionStatus::Initial, incarnation: 0, dependency: None }
}

/// Where a value that was read came from.
#[derive(Debug, Clone, Copy, PartialEq, Eq, Structural)]
pub enum ReadVersion {
    /// An earlier transaction of the block wrote it.
    MvMemory(TxVersion),
    /// The state before the block.
    Storage,
}

/// What one transaction left at one location.
#[derive(Debug, Clone, Copy, PartialEq, Eq, Structural)]
pub struct MemoryEntry {
    /// The incarnation that wrote it.
    pub incarnation: usize,
    /// The write is expected to change.
    pub estimate: bool,
}

/// Work for one worker.
#[derive(Debug, Clone, Copy, PartialEq, Eq, Structural)]
pub enum Task {
    /// Execute the incarnation.
    Execution(TxVersion),
    /// Validate the incarnation.
    Validation(TxVersion),
}

/// What the last finished incarnation of a transaction produced.
pub struct TransactionResult<R, E> {
    /// The locations read, with the versions seen.
    pub read_set: ReadSet,
    /// The locations written.
    pub write_set: AHashSet<LocationId>,
    /// The output, or the error that the EVM reported.
    pub execute_result: Result<R, EVMError<E>>,
}

/// The mathematical content of a [`TransactionResult`].
#[verifier::ext_equal]
#[verifier::reject_recursive_types(R)]
#[verifier::reject_recursive_types(E)]
pub struct ResultView<R, E> {
    /// The locations read, with the versions seen.
    pub reads: Map<LocationId, ReadVersion>,
    /// The locations written.
    pub writes: Set<LocationId>,
    /// The output, or the error that the EVM reported.
    pub outcome: Result<R, EVMError<E>>,
}

impl<R, E> View for TransactionResult<R, E> {
    type V = ResultView<R, E>;

    open spec fn view(&self) -> ResultView<R, E> {
        ResultView {
            reads: versions(self.read_set),
            writes: members(self.write_set),
            outcome: self.execute_result,
        }
    }
}

/// What a finished EVM invocation hands back to the scheduler.
pub enum ExecutionAttempt<R, E> {
    /// The EVM produced an output.
    Done {
        /// No read of the beneficiary or of a destroyed account went past an uncommitted
        /// transaction.
        read_accurate_origin: bool,
        /// Some read met a write that is expected to change.
        read_estimate: bool,
        /// The locations read, with the versions seen.
        read_set: ReadSet,
        /// The locations written.
        write_set: AHashSet<LocationId>,
        /// The output.
        output: R,
    },
    /// The EVM reported an error.
    Failed {
        /// The error.
        error: EVMError<E>,
    },
}

/// How the dependency graph has to be updated after an execution or validation.
#[derive(Debug, Clone, Copy, PartialEq, Eq, Structural)]
pub enum DependencyUpdate {
    /// The transaction has to wait until everything before it is committed.
    KeyTx(TxId),
    /// The transaction has to wait for another one, or for nothing.
    Add(TxId, Option<TxId>),
    /// The transaction is done: release its dependents. The answer may name one of them, with which
    /// the worker then goes on directly.
    Release(TxId),
    /// The transaction needs no execution: release its dependents.
    Skip(TxId),
    /// The transaction is committed: release all of its dependents.
    Commit(TxId),
}

/// How a worker goes on.
#[derive(Debug, Clone, Copy, PartialEq, Eq, Structural)]
pub struct Assignment {
    /// The next task of the worker, if it has one.
    pub task: Option<Task>,
    /// What the dependency graph still has to be told.
    pub update: Option<DependencyUpdate>,
}

/// Why a run was stopped early.
pub enum AbortReason<E> {
    /// The next transaction to be committed failed in the EVM.
    FatalEvmError(TxId),
    /// Committing failed.
    CommitError(GrevmError<E>),
    /// The scheduler found its own state inconsistent.
    ParallelError {
        /// The transaction concerned.
        txid: TxId,
        /// What was found.
        message: &'static str,
    },
    /// An account was destroyed in a way that only sequential execution handles.
    SelfDestructed,
    /// The rest of the block has to be executed sequentially.
    FallbackSequential,
    /// The caller asked to stop.
    Cancelled,
}

} // verus!
