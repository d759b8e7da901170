//! The transitions: each checks its preconditions first and changes the
//! store only when all of them hold.
use vstd::prelude::*;
use crate::error::ContractError;
use crate::state::{ContractView, OptionsContract, State};

verus! {

/// A store as a map from contract id to record.
pub type StoreMap = Map<Seq<char>, ContractView>;

/// The record that a create by `sender` stores.
pub open spec fn created(
    sender: Seq<char>,
    underlying: Seq<char>,
    strike_price: u64,
    expiration: u64,
    contract_type: Seq<char>,
    bid_price: u64,
    ask_price: u64,
) -> ContractView {
    ContractView {
        owner: sender,
        underlying,
        strike_price,
        expiration,
        contract_type,
        bid_price,
        ask_price,
    }
}

/// The store after a transfer, or why there is none.
pub open spec fn transfer_spec(
    m: StoreMap,
    sender: Seq<char>,
    id: Seq<char>,
    new_owner: Seq<char>,
) -> Result<StoreMap, ContractError> {
    if !m.contains_key(id) {
        Err(ContractError::NotFound)
    } else if m[id].owner != sender {
        Err(ContractError::Unauthorized)
    } else {
        Ok(m.insert(id, m[id].with_owner(new_owner)))
    }
}

/// The store after an expiry, or why there is none.
pub open spec fn expire_spec(m: StoreMap, sender: Seq<char>, id: Seq<char>) -> Result<
    StoreMap,
    ContractError,
> {
    if !m.contains_key(id) {
        Err(ContractError::NotFound)
    } else if m[id].owner != sender {
        Err(ContractError::Unauthorized)
    } else {
        Ok(m.remove(id))
    }
}

/// The store after a bid, or why there is none.
pub open spec fn bid_spec(m: StoreMap, sender: Seq<char>, id: Seq<char>, amount: u64) -> Result<
    StoreMap,
    ContractError,
> {
    if !m.contains_key(id) {
        Err(ContractError::NotFound)
    } else if amount < m[id].ask_price {
        Err(ContractError::PriceRejected)
    } else {
        Ok(m.insert(id, m[id].with_bid(sender, amount)))
    }
}

/// The store after an execution, or why there is none.
pub open spec fn execute_spec(m: StoreMap, sender: Seq<char>, id: Seq<char>) -> Result<
    StoreMap,
    ContractError,
> {
    if !m.contains_key(id) {
        Err(ContractError::NotFound)
    } else if m[id].owner != sender {
        Err(ContractError::Unauthorized)
    } else if m[id].bid_price < m[id].ask_price {
        Err(ContractError::PriceRejected)
    } else {
        Ok(m.insert(id, m[id].with_owner(sender)))
    }
}

/// `r` and the change from `before` to `after` are what `expected` says:
/// the new store on success, the error and an untouched store on failure.
pub open spec fn applied(
    r: Result<(), ContractError>,
    before: StoreMap,
    after: StoreMap,
    expected: Result<StoreMap, ContractError>,
) -> bool {
    match expected {
        Ok(m) => r == Ok::<(), ContractError>(()) && after == m,
        Err(e) => r == Err::<(), ContractError>(e) && after == before,
    }
}

/// Stores a new contract owned by `sender` under the id `sender`,
/// replacing any contract stored there.
pub fn instantiate(
    state: &mut State,
    sender: &String,
    underlying: String,
    strike_price: u64,
    expiration: u64,
    contract_type: String,
    bid_price: u64,
    ask_price: u64,
)
    requires
        old(state).wf(),
    ensures
        final(state).wf(),
        final(state)@ == old(state)@.insert(
            sender@,
            created(
                sender@,
                underlying@,
                strike_price,
                expiration,
                contract_type@,
                bid_price,
                ask_price,
            ),
        ),
{
    let record = OptionsContract {
        owner: sender.clone(),
        underlying,
        strike_price,
        expiration,
        contract_type,
        bid_price,
        ask_price,
    };
    state.insert(sender.clone(), record);
}

/// Hands the contract `contract_id` to `new_owner`; only its owner may.
pub fn transfer(state: &mut State, sender: &String, contract_id: String, new_owner: String) -> (r:
    Result<(), ContractError>)
    requires
        old(state).wf(),
    ensures
        final(state).wf(),
        applied(
            r,
            old(state)@,
            final(state)@,
            transfer_spec(old(state)@, sender@, contract_id@, new_owner@),
        ),
{
    let updated = match state.get(&contract_id) {
        None => {
            return Err(ContractError::NotFound);
        },
        Some(c) => {
            if c.owner != *sender {
                return Err(ContractError::Unauthorized);
            }
            c.with_owner(new_owner)
        },
    };
    state.insert(contract_id, updated);
    Ok(())
}

/// Removes the contract `contract_id`; only its owner may.
pub fn expire(state: &mut State, sender: &String, contract_id: String) -> (r: Result<
    (),
    ContractError,
>)
    requires
        old(state).wf(),
    ensures
        final(state).wf(),
        applied(r, old(state)@, final(state)@, expire_spec(old(state)@, sender@, contract_id@)),
{
    match state.get(&contract_id) {
        None => {
            return Err(ContractError::NotFound);
        },
        Some(c) => {
            if c.owner != *sender {
                return Err(ContractError::Unauthorized);
            }
        },
    }
    state.remove(&contract_id);
    Ok(())
}

/// Places a bid of `bid_amount` by `sender`; a bid at or above the ask
/// price is recorded and makes the bidder the owner.
pub fn bid(state: &mut State, sender: &String, contract_id: String, bid_amount: u64) -> (r:
    Result<(), ContractError>)
    requires
        old(state).wf(),
    ensures
        final(state).wf(),
        applied(
            r,
            old(state)@,
            final(state)@,
            bid_spec(old(state)@, sender@, contract_id@, bid_amount),
        ),
{
    let updated = match state.get(&contract_id) {
        None => {
            return Err(ContractError::NotFound);
        },
        Some(c) => {
            if bid_amount < c.ask_price {
                return Err(ContractError::PriceRejected);
            }
            c.with_bid(sender.clone(), bid_amount)
        },
    };
    state.insert(contract_id, updated);
    Ok(())
}

/// Settles the contract `contract_id` for its owner, once its bid meets
/// its ask price; the record stays, owned by the caller.
pub fn execute(state: &mut State, sender: &String, contract_id: String) -> (r: Result<
    (),
    ContractError,
>)
    requires
        old(state).wf(),
    ensures
        final(state).wf(),
        applied(r, old(state)@, final(state)@, execute_spec(old(state)@, sender@, contract_id@)),
{
    let updated = match state.get(&contract_id) {
        None => {
            return Err(ContractError::NotFound);
        },
        Some(c) => {
            if c.owner != *sender {
                return Err(ContractError::Unauthorized);
            }
            if c.bid_price < c.ask_price {
                return Err(ContractError::PriceRejected);
            }
            c.with_owner(sender.clone())
        },
    };
    state.insert(contract_id, updated);
    Ok(())
}

/// A second create by the same caller replaces the first contract: the
/// store ends as if only the second had been made, and has no more
/// contracts than after the first.
pub proof fn lemma_create_overwrites(
    m: StoreMap,
    sender: Seq<char>,
    first: ContractView,
    second: ContractView,
)
    requires
        m.dom().finite(),
    ensures
        m.insert(sender, first).insert(sender, second) == m.insert(sender, second),
        m.insert(sender, first).insert(sender, second).len() == m.insert(sender, first).len(),
{
    assert(m.insert(sender, first).insert(sender, second) =~= m.insert(sender, second));
    assert(m.insert(sender, first).dom().insert(sender) =~= m.insert(sender, first).dom());
}

/// Transfer, expire and execute by anyone but the owner are refused with
/// `Unauthorized`, which leaves the store as it was.
pub proof fn lemma_owner_gate(m: StoreMap, sender: Seq<char>, id: Seq<char>, new_owner: Seq<char>)
    requires
        m.contains_key(id),
        m[id].owner != sender,
    ensures
        transfer_spec(m, sender, id, new_owner) == Err::<StoreMap, ContractError>(
            ContractError::Unauthorized,
        ),
        expire_spec(m, sender, id) == Err::<StoreMap, ContractError>(ContractError::Unauthorized),
        execute_spec(m, sender, id) == Err::<StoreMap, ContractError>(
            ContractError::Unauthorized,
        ),
{
}

/// A bid on a stored contract succeeds exactly when it is at least the ask
/// price; below it, it is refused with `PriceRejected`.
pub proof fn lemma_bid_floor(m: StoreMap, sender: Seq<char>, id: Seq<char>, amount: u64)
    requires
        m.contains_key(id),
    ensures
        bid_spec(m, sender, id, amount) is Ok <==> amount >= m[id].ask_price,
        amount < m[id].ask_price ==> bid_spec(m, sender, id, amount) == Err::<
            StoreMap,
            ContractError,
        >(ContractError::PriceRejected),
{
}

/// After a qualifying bid the bidder owns the contract and its bid price
/// is the amount bid.
pub proof fn lemma_bid_takes_ownership(
    m: StoreMap,
    bidder: Seq<char>,
    id: Seq<char>,
    amount: u64,
)
    requires
        m.contains_key(id),
        amount >= m[id].ask_price,
    ensures
        bid_spec(m, bidder, id, amount) is Ok,
        bid_spec(m, bidder, id, amount)->Ok_0.contains_key(id),
        bid_spec(m, bidder, id, amount)->Ok_0[id].owner == bidder,
        bid_spec(m, bidder, id, amount)->Ok_0[id].bid_price == amount,
{
}

/// Execution succeeds, whoever asks, only where the bid meets the ask
/// price; for the owner a lower bid is refused with `PriceRejected`.
pub proof fn lemma_execute_needs_bid(m: StoreMap, sender: Seq<char>, id: Seq<char>)
    ensures
        execute_spec(m, sender, id) is Ok ==> m.contains_key(id) && m[id].bid_price
            >= m[id].ask_price,
        m.contains_key(id) && m[id].owner == sender && m[id].bid_price < m[id].ask_price
            ==> execute_spec(m, sender, id) == Err::<StoreMap, ContractError>(
            ContractError::PriceRejected,
        ),
{
}

/// After a successful expiry the contract is gone, and expiring it again
/// is refused with `NotFound`.
pub proof fn lemma_expire_is_final(
    m: StoreMap,
    sender: Seq<char>,
    id: Seq<char>,
    again_by: Seq<char>,
)
    requires
        expire_spec(m, sender, id) is Ok,
    ensures
        !expire_spec(m, sender, id)->Ok_0.contains_key(id),
        expire_spec(expire_spec(m, sender, id)->Ok_0, again_by, id) == Err::<
            StoreMap,
            ContractError,
        >(ContractError::NotFound),
{
}

} // verus!
