//! Ordered transaction outcomes and the errors that stop a block.

use crate::tx_dependency::TxId;
use revm_context::result::{EVMError, ExecutionResult, HaltReason, InvalidTransaction};
use vstd::prelude::*;

verus! {

#[verifier::external_type_specification]
#[verifier::external_body]
pub struct ExUint<const BITS: usize, const LIMBS: usize>(revm_primitives::ruint::Uint<BITS, LIMBS>);

#[verifier::external_type_specification]
pub struct ExInvalidTransaction(InvalidTransaction);

#[verifier::external_type_specification]
pub struct ExInvalidHeader(revm_context::result::InvalidHeader);

#[verifier::external_type_specification]
#[verifier::external_body]
pub struct ExAnyError(revm_context::result::AnyError);

/// `InvalidTransaction::clone`, which is derived: the copy is the same rejection.
pub assume_specification[ <InvalidTransaction as Clone>::clone ](
    error: &InvalidTransaction,
) -> (copy: InvalidTransaction)
    ensures
        copy == *error,
;

/// `AnyError::clone`, which is derived and shares the error: the copy is the same error.
pub assume_specification[ <revm_context::result::AnyError as Clone>::clone ](
    error: &revm_context::result::AnyError,
) -> (copy: revm_context::result::AnyError)
    ensures
        copy == *error,
;

#[verifier::external_type_specification]
pub struct ExEvmError<D, T>(EVMError<D, T>);

#[verifier::external_type_specification]
#[verifier::external_body]
pub struct ExHaltReason(HaltReason);

#[verifier::external_type_specification]
#[verifier::external_body]
#[verifier::reject_recursive_types(H)]
pub struct ExExecutionResult<H>(ExecutionResult<H>);

/// The final ordered outcome of one transaction.
#[derive(Debug)]
pub enum TxExecutionOutcome {
    /// The transaction was executed and its changes were committed.
    Executed(ExecutionResult),
    /// The transaction was invalid against the committed state and changed nothing.
    Skipped(InvalidTransaction),
}

impl TxExecutionOutcome {
    /// Whether the transaction was executed.
    pub fn is_executed(&self) -> (executed: bool)
        ensures
            executed == (self is Executed),
    {
        match self {
            TxExecutionOutcome::Executed(_) => true,
            TxExecutionOutcome::Skipped(_) => false,
        }
    }
}

/// An error that stopped the execution of a block, with the transaction it concerns.
#[derive(Debug)]
pub struct GrevmError<DBError> {
    /// The transaction at which execution stopped.
    pub txid: TxId,
    /// What went wrong.
    pub error: EVMError<DBError>,
}

/// `copy` is a copy of `error`: the same error, but for a database error, which is copied the way
/// its type is cloned.
pub open spec fn error_copied<DBError: Clone>(
    error: EVMError<DBError>,
    copy: EVMError<DBError>,
) -> bool {
    match error {
        EVMError::Database(error) => match copy {
            EVMError::Database(copy) => cloned(error, copy),
            _ => false,
        },
        _ => copy == error,
    }
}

/// Copies an error.
pub fn copy_error<DBError: Clone>(error: &EVMError<DBError>) -> (copy: EVMError<DBError>)
    ensures
        error_copied(*error, copy),
{
    match error {
        EVMError::Transaction(error) => EVMError::Transaction(error.clone()),
        EVMError::Header(error) => EVMError::Header(*error),
        EVMError::Database(error) => EVMError::Database(error.clone()),
        EVMError::Custom(message) => EVMError::Custom(message.clone()),
        EVMError::CustomAny(error) => EVMError::CustomAny(error.clone()),
    }
}

impl<DBError: Clone> Clone for GrevmError<DBError> {
    fn clone(&self) -> (copy: Self)
        ensures
            copy.txid == self.txid,
            error_copied(self.error, copy.error),
    {
        GrevmError { txid: self.txid, error: copy_error(&self.error) }
    }
}

/// The text that marks an error as a cooperative cancellation.
fn cancelled_message() -> (message: String)
    ensures
        message@ == "grevm execution cancelled"@,
{
    "grevm execution cancelled".to_owned()
}

impl<DBError> GrevmError<DBError> {
    /// The error reports a cooperative cancellation.
    pub open spec fn cancelled_spec(self) -> bool {
        match self.error {
            EVMError::Custom(message) => message@ == "grevm execution cancelled"@,
            _ => false,
        }
    }

    /// The error of a run that was cancelled before `txid` was processed.
    pub fn cancelled(txid: TxId) -> (error: Self)
        ensures
            error.txid == txid,
            error.cancelled_spec(),
    {
        GrevmError { txid, error: EVMError::Custom(cancelled_message()) }
    }

    /// Whether the error reports a cooperative cancellation.
    pub fn is_cancelled(&self) -> (cancelled: bool)
        ensures
            cancelled == self.cancelled_spec(),
    {
        match &self.error {
            EVMError::Custom(message) => *message == cancelled_message(),
            _ => false,
        }
    }
}

} // verus!
