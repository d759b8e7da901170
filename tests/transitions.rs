use option_contract::contract;
use option_contract::error::ContractError;
use option_contract::msg::ExecuteMsg;
use option_contract::state::{OptionsContract, State};
use option_contract::{apply, execute, instantiate};

fn s(x: &str) -> String {
    x.to_string()
}

fn create(state: &mut State, owner: &str, underlying: &str, bid: u64, ask: u64) {
    contract::instantiate(state, &s(owner), s(underlying), 100, 7, s("put"), bid, ask);
}

fn record(state: &State, id: &str) -> OptionsContract {
    let c = state.get(&s(id)).unwrap();
    OptionsContract {
        owner: c.owner.clone(),
        underlying: c.underlying.clone(),
        strike_price: c.strike_price,
        expiration: c.expiration,
        contract_type: c.contract_type.clone(),
        bid_price: c.bid_price,
        ask_price: c.ask_price,
    }
}

fn same(a: &OptionsContract, b: &OptionsContract) -> bool {
    a.owner == b.owner
        && a.underlying == b.underlying
        && a.strike_price == b.strike_price
        && a.expiration == b.expiration
        && a.contract_type == b.contract_type
        && a.bid_price == b.bid_price
        && a.ask_price == b.ask_price
}

#[test]
fn second_create_replaces_first() {
    let mut state = State::new();
    create(&mut state, "alice", "ATOM", 1, 10);
    assert_eq!(state.len(), 1);
    create(&mut state, "alice", "OSMO", 2, 20);
    assert_eq!(state.len(), 1);
    let c = record(&state, "alice");
    assert_eq!(c.underlying, "OSMO");
    assert_eq!(c.bid_price, 2);
    assert_eq!(c.ask_price, 20);
    create(&mut state, "bob", "ATOM", 1, 10);
    assert_eq!(state.len(), 2);
}

#[test]
fn strangers_are_refused_and_nothing_changes() {
    let mut state = State::new();
    create(&mut state, "alice", "ATOM", 50, 10);
    let before = state.save();
    let stranger = s("mallory");
    assert_eq!(
        contract::transfer(&mut state, &stranger, s("alice"), s("mallory")),
        Err(ContractError::Unauthorized)
    );
    assert_eq!(contract::expire(&mut state, &stranger, s("alice")), Err(ContractError::Unauthorized));
    assert_eq!(contract::execute(&mut state, &stranger, s("alice")), Err(ContractError::Unauthorized));
    assert_eq!(state.save(), before);
}

#[test]
fn missing_contract_is_not_found() {
    let mut state = State::new();
    let who = s("alice");
    assert_eq!(contract::transfer(&mut state, &who, s("x"), s("y")), Err(ContractError::NotFound));
    assert_eq!(contract::expire(&mut state, &who, s("x")), Err(ContractError::NotFound));
    assert_eq!(contract::bid(&mut state, &who, s("x"), 1), Err(ContractError::NotFound));
    assert_eq!(contract::execute(&mut state, &who, s("x")), Err(ContractError::NotFound));
}

#[test]
fn transfer_changes_only_the_owner() {
    let mut state = State::new();
    create(&mut state, "alice", "ATOM", 5, 10);
    let before = record(&state, "alice");
    assert_eq!(contract::transfer(&mut state, &s("alice"), s("alice"), s("carol")), Ok(()));
    let after = record(&state, "alice");
    assert_eq!(after.owner, "carol");
    let mut expected = before;
    expected.owner = s("carol");
    assert!(same(&after, &expected));
    assert_eq!(state.len(), 1);
}

#[test]
fn bid_at_ask_price_is_accepted() {
    let mut state = State::new();
    create(&mut state, "alice", "ATOM", 0, 150);
    assert_eq!(contract::bid(&mut state, &s("bob"), s("alice"), 150), Ok(()));
    let c = record(&state, "alice");
    assert_eq!(c.owner, "bob");
    assert_eq!(c.bid_price, 150);
}

#[test]
fn bid_just_below_ask_price_is_rejected() {
    let mut state = State::new();
    create(&mut state, "alice", "ATOM", 0, 150);
    let before = state.save();
    assert_eq!(contract::bid(&mut state, &s("bob"), s("alice"), 149), Err(ContractError::PriceRejected));
    assert_eq!(state.save(), before);
    assert_eq!(record(&state, "alice").owner, "alice");
}

#[test]
fn lower_bid_than_previous_still_wins_if_over_ask() {
    let mut state = State::new();
    create(&mut state, "alice", "ATOM", 0, 100);
    assert_eq!(contract::bid(&mut state, &s("bob"), s("alice"), 300), Ok(()));
    assert_eq!(contract::bid(&mut state, &s("carol"), s("alice"), 120), Ok(()));
    let c = record(&state, "alice");
    assert_eq!(c.owner, "carol");
    assert_eq!(c.bid_price, 120);
}

#[test]
fn execute_without_qualifying_bid_is_rejected() {
    let mut state = State::new();
    create(&mut state, "alice", "ATOM", 99, 100);
    assert_eq!(contract::execute(&mut state, &s("alice"), s("alice")), Err(ContractError::PriceRejected));
    assert_eq!(contract::execute(&mut state, &s("bob"), s("alice")), Err(ContractError::Unauthorized));
}

#[test]
fn execute_keeps_the_record() {
    let mut state = State::new();
    create(&mut state, "alice", "ATOM", 100, 100);
    let before = record(&state, "alice");
    assert_eq!(contract::execute(&mut state, &s("alice"), s("alice")), Ok(()));
    assert!(same(&record(&state, "alice"), &before));
}

#[test]
fn expire_twice_is_not_found() {
    let mut state = State::new();
    create(&mut state, "alice", "ATOM", 1, 10);
    create(&mut state, "bob", "ATOM", 1, 10);
    assert_eq!(contract::expire(&mut state, &s("alice"), s("alice")), Ok(()));
    assert!(!state.contains_key(&s("alice")));
    assert!(state.contains_key(&s("bob")));
    assert_eq!(contract::expire(&mut state, &s("alice"), s("alice")), Err(ContractError::NotFound));
    assert_eq!(state.len(), 1);
}

#[test]
fn apply_dispatches_each_command() {
    let mut state = State::new();
    let alice = s("alice");
    let msg = ExecuteMsg::Create {
        underlying: s("ATOM"),
        strike_price: 3,
        expiration: 4,
        contract_type: s("call"),
        bid_price: 0,
        ask_price: 10,
    };
    assert_eq!(apply(&mut state, &alice, msg), Ok(()));
    let msg = ExecuteMsg::Transfer { contract_id: s("alice"), new_owner: s("bob") };
    assert_eq!(apply(&mut state, &alice, msg), Ok(()));
    assert_eq!(record(&state, "alice").owner, "bob");
    let msg = ExecuteMsg::Bid { contract_id: s("alice"), bid_amount: 9 };
    assert_eq!(apply(&mut state, &alice, msg), Err(ContractError::PriceRejected));
    let msg = ExecuteMsg::Expire { contract_id: s("alice") };
    assert_eq!(apply(&mut state, &s("bob"), msg), Ok(()));
    assert_eq!(state.len(), 0);
}

#[test]
fn scenario_create_bid_execute() {
    let creator = s("creator");
    let bidder = s("bidder");
    let msg = ExecuteMsg::Create {
        underlying: s("ATOM"),
        strike_price: 100_000000,
        expiration: 1,
        contract_type: s("call"),
        bid_price: 50_000000,
        ask_price: 150_000000,
    };
    let stored = execute(Some(instantiate()), &creator, msg).unwrap();
    let state = State::from_storage(Some(stored.clone())).unwrap();
    assert_eq!(state.len(), 1);
    let c = record(&state, "creator");
    assert_eq!(c.ask_price, 150_000000);
    assert_eq!(c.bid_price, 50_000000);

    let msg = ExecuteMsg::Bid { contract_id: s("creator"), bid_amount: 200_000000 };
    let stored = execute(Some(stored), &bidder, msg).unwrap();
    let c = record(&State::from_storage(Some(stored.clone())).unwrap(), "creator");
    assert_eq!(c.owner, "bidder");
    assert_eq!(c.bid_price, 200_000000);

    let msg = ExecuteMsg::Execute { contract_id: s("creator") };
    assert_eq!(execute(Some(stored.clone()), &creator, msg), Err(ContractError::Unauthorized));
    let msg = ExecuteMsg::Execute { contract_id: s("creator") };
    let stored = execute(Some(stored), &bidder, msg).unwrap();
    let c = record(&State::from_storage(Some(stored)).unwrap(), "creator");
    assert_eq!(c.owner, "bidder");
}
