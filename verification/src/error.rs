//! Error type shared by the storage modules.
use vstd::prelude::*;
use vstd::string::StringExecFns;
use crate::text::{decimal, decimal_text};

verus! {

/// Kind of an I/O failure, as far as the library tells them apart.
#[derive(Debug, Clone, Copy, PartialEq, Eq, Structural)]
pub enum IoErrorKind {
    TimedOut,
    NotFound,
    UnexpectedEof,
    PermissionDenied,
    Other,
}

/// Errors reported by the context store.
#[derive(Debug)]
pub enum ContextError {
    /// An operation could not be carried out; the text says why.
    OperationFailed(String),
    /// An object was not in the state the operation needs.
    InvalidState(String),
    /// An I/O failure of the given kind.
    Io(IoErrorKind),
}

/// Result type of the context store.
pub type ContextResult<T> = Result<T, ContextError>;

} // verus!

verus! {

/// The text `Transaction <id> is not active, cannot <action>`, the id in
/// decimal.
pub fn inactive_transaction_message(id: u64, action: &str) -> (s: String)
    ensures
        s@ == "Transaction "@ + decimal(id as nat) + " is not active, cannot "@ + action@,
{
    let mut s = String::from_str("Transaction ");
    s.append(decimal_text(id).as_str());
    s.append(" is not active, cannot ");
    s.append(action);
    s
}

} // verus!
