//! The closed set of failures that ledger operations report.

use vstd::prelude::*;

verus! {

/// Why a ledger operation was refused.
#[derive(Clone, Copy, Debug, PartialEq, Eq, Structural)]
pub enum BudgetError {
    /// An argument is malformed, such as a month outside 1 to 12.
    InvalidArgument,
    /// The operation needs a record that does not exist.
    NotFound,
    /// The store could not carry out the operation.
    StorageError,
    /// A partial update supplied no field at all.
    NoOpUpdate,
}

} // verus!
