//! The ways a transition or a load can fail.
use vstd::prelude::*;

verus! {

/// Why a command was rejected; the store is left as it was.
#[derive(Clone, Copy, Debug, PartialEq, Eq, Structural)]
pub enum ContractError {
    /// No contract is stored under the given id.
    NotFound,
    /// The caller does not own the contract.
    Unauthorized,
    /// A bid below the ask price, or an execution without a qualifying bid.
    PriceRejected,
    /// The persisted bytes are not a valid store.
    DecodeError,
}

} // verus!
