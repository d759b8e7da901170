//! The commands that the transitions answer, and the queries.
use vstd::prelude::*;

verus! {

/// A command, applied on behalf of a caller.
pub enum ExecuteMsg {
    /// Store a new contract owned by the caller, under the caller's id.
    Create {
        underlying: String,
        strike_price: u64,
        expiration: u64,
        contract_type: String,
        bid_price: u64,
        ask_price: u64,
    },
    /// Hand the contract to `new_owner`.
    Transfer { contract_id: String, new_owner: String },
    /// Remove the contract.
    Expire { contract_id: String },
    /// Offer `bid_amount`; a bid at or above the ask price takes ownership.
    Bid { contract_id: String, bid_amount: u64 },
    /// Settle a contract whose bid meets its ask price.
    Execute { contract_id: String },
}

/// A read of the stored state.
pub enum QueryMsg {
    Config {},
}

} // verus!
