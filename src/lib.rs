//! A store of options contracts and the guarded transitions that create,
//! transfer, bid on, execute and expire them.
use vstd::prelude::*;

pub mod codec;
pub mod contract;
pub mod error;
pub mod msg;
pub mod state;

use crate::codec::decode_store;
use crate::contract::{
    applied, bid_spec, created, execute_spec, expire_spec, transfer_spec, StoreMap,
};
use crate::error::ContractError;
use crate::msg::ExecuteMsg;
use crate::state::{map_of, ContractView, State};

verus! {

/// The store after `msg` is applied for `sender`, or why it is refused.
pub open spec fn step(m: StoreMap, sender: Seq<char>, msg: ExecuteMsg) -> Result<
    StoreMap,
    ContractError,
> {
    match msg {
        ExecuteMsg::Create {
            underlying,
            strike_price,
            expiration,
            contract_type,
            bid_price,
            ask_price,
        } => Ok(
            m.insert(
                sender,
                created(
                    sender,
                    underlying@,
                    strike_price,
                    expiration,
                    contract_type@,
                    bid_price,
                    ask_price,
                ),
            ),
        ),
        ExecuteMsg::Transfer { contract_id, new_owner } => transfer_spec(
            m,
            sender,
            contract_id@,
            new_owner@,
        ),
        ExecuteMsg::Expire { contract_id } => expire_spec(m, sender, contract_id@),
        ExecuteMsg::Bid { contract_id, bid_amount } => bid_spec(
            m,
            sender,
            contract_id@,
            bid_amount,
        ),
        ExecuteMsg::Execute { contract_id } => execute_spec(m, sender, contract_id@),
    }
}

/// The store that persisted bytes hold: nothing persisted is the empty
/// store, and bytes that are no valid store hold none.
pub open spec fn stored_view(data: Option<Seq<u8>>) -> Option<StoreMap> {
    match data {
        None => Some(Map::empty()),
        Some(b) => match decode_store(b) {
            None => None,
            Some(es) => Some(map_of(es)),
        },
    }
}

/// The bytes of the empty store, persisted when the contract is set up.
pub fn instantiate() -> (r: Vec<u8>)
    ensures
        stored_view(Some(r@)) == Some(Map::<Seq<char>, ContractView>::empty()),
{
    State::new().save()
}

/// Applies `msg` on behalf of `sender` to `state`; a refused command
/// leaves `state` as it was.
pub fn apply(state: &mut State, sender: &String, msg: ExecuteMsg) -> (r: Result<(), ContractError>)
    requires
        old(state).wf(),
    ensures
        final(state).wf(),
        applied(r, old(state)@, final(state)@, step(old(state)@, sender@, msg)),
{
    match msg {
        ExecuteMsg::Create {
            underlying,
            strike_price,
            expiration,
            contract_type,
            bid_price,
            ask_price,
        } => {
            contract::instantiate(
                state,
                sender,
                underlying,
                strike_price,
                expiration,
                contract_type,
                bid_price,
                ask_price,
            );
            Ok(())
        },
        ExecuteMsg::Transfer { contract_id, new_owner } => contract::transfer(
            state,
            sender,
            contract_id,
            new_owner,
        ),
        ExecuteMsg::Expire { contract_id } => contract::expire(state, sender, contract_id),
        ExecuteMsg::Bid { contract_id, bid_amount } => contract::bid(
            state,
            sender,
            contract_id,
            bid_amount,
        ),
        ExecuteMsg::Execute { contract_id } => contract::execute(state, sender, contract_id),
    }
}

/// Handles one command: loads the store from `stored` (what is persisted,
/// if anything), applies `msg` for `sender`, and returns the bytes to
/// persist. On an error nothing is to be written.
pub fn execute(stored: Option<Vec<u8>>, sender: &String, msg: ExecuteMsg) -> (r: Result<
    Vec<u8>,
    ContractError,
>)
    ensures
        match stored_view(
            match stored {
                None => None,
                Some(b) => Some(b@),
            },
        ) {
            None => r == Err::<Vec<u8>, ContractError>(ContractError::DecodeError),
            Some(m) => match step(m, sender@, msg) {
                Err(e) => r == Err::<Vec<u8>, ContractError>(e),
                Ok(next) => r is Ok && stored_view(Some(r->Ok_0@)) == Some(next),
            },
        },
{
    let mut state = State::from_storage(stored)?;
    apply(&mut state, sender, msg)?;
    Ok(state.save())
}

} // verus!
