use option_contract::contract;
use option_contract::error::ContractError;
use option_contract::instantiate;
use option_contract::state::State;

fn s(x: &str) -> String {
    x.to_string()
}

#[test]
fn nothing_stored_loads_empty() {
    let state = State::from_storage(None).unwrap();
    assert_eq!(state.len(), 0);
}

#[test]
fn instantiate_stores_the_empty_store() {
    let bytes = instantiate();
    assert_eq!(bytes, vec![0u8, 0, 0, 0, 0, 0, 0, 0]);
    assert_eq!(State::from_storage(Some(bytes)).unwrap().len(), 0);
}

#[test]
fn save_writes_the_documented_layout() {
    let mut state = State::new();
    contract::instantiate(&mut state, &s("ab"), s("é"), 1, 2, s("c"), 3, 258);
    let bytes = state.save();
    let mut expected: Vec<u8> = vec![1, 0, 0, 0, 0, 0, 0, 0];
    expected.extend_from_slice(&[2, 0, 0, 0, 0, 0, 0, 0, b'a', b'b']);
    expected.extend_from_slice(&[2, 0, 0, 0, 0, 0, 0, 0, b'a', b'b']);
    expected.extend_from_slice(&[2, 0, 0, 0, 0, 0, 0, 0, 0xc3, 0xa9]);
    expected.extend_from_slice(&[1, 0, 0, 0, 0, 0, 0, 0]);
    expected.extend_from_slice(&[2, 0, 0, 0, 0, 0, 0, 0]);
    expected.extend_from_slice(&[1, 0, 0, 0, 0, 0, 0, 0, b'c']);
    expected.extend_from_slice(&[3, 0, 0, 0, 0, 0, 0, 0]);
    expected.extend_from_slice(&[2, 1, 0, 0, 0, 0, 0, 0]);
    assert_eq!(bytes, expected);
}

#[test]
fn load_then_save_reproduces_the_store() {
    let mut state = State::new();
    contract::instantiate(&mut state, &s("alice"), s("ATOM"), 1, 2, s("call"), 3, 4);
    contract::instantiate(&mut state, &s("bob"), s("日本"), 5, 6, s("put"), 7, 8);
    assert_eq!(contract::bid(&mut state, &s("carol"), s("bob"), 9), Ok(()));
    let bytes = state.save();
    let loaded = State::from_storage(Some(bytes.clone())).unwrap();
    assert_eq!(loaded.save(), bytes);
    assert_eq!(loaded.len(), 2);
    let b = loaded.get(&s("bob")).unwrap();
    assert_eq!(b.owner, "carol");
    assert_eq!(b.underlying, "日本");
    assert_eq!(b.bid_price, 9);
    let again = State::from_storage(Some(loaded.save())).unwrap();
    assert_eq!(again.get(&s("alice")).unwrap().contract_type, "call");
}

#[test]
fn truncated_bytes_are_a_decode_error() {
    let mut state = State::new();
    contract::instantiate(&mut state, &s("alice"), s("ATOM"), 1, 2, s("call"), 3, 4);
    let mut bytes = state.save();
    bytes.pop();
    assert_eq!(State::from_storage(Some(bytes)).err(), Some(ContractError::DecodeError));
    assert_eq!(State::from_storage(Some(vec![1, 2, 3])).err(), Some(ContractError::DecodeError));
}

#[test]
fn trailing_bytes_are_a_decode_error() {
    let mut bytes = instantiate();
    bytes.push(0);
    assert_eq!(State::from_storage(Some(bytes)).err(), Some(ContractError::DecodeError));
}

#[test]
fn invalid_utf8_is_a_decode_error() {
    let mut state = State::new();
    contract::instantiate(&mut state, &s("a"), s("b"), 1, 2, s("c"), 3, 4);
    let mut bytes = state.save();
    // The id's single byte follows the entry count and the id's length.
    assert_eq!(bytes[16], b'a');
    bytes[16] = 0xff;
    assert_eq!(State::from_storage(Some(bytes)).err(), Some(ContractError::DecodeError));
}

#[test]
fn repeated_id_is_a_decode_error() {
    let mut state = State::new();
    contract::instantiate(&mut state, &s("a"), s("b"), 1, 2, s("c"), 3, 4);
    let one = state.save();
    let mut bytes: Vec<u8> = vec![2, 0, 0, 0, 0, 0, 0, 0];
    bytes.extend_from_slice(&one[8..]);
    bytes.extend_from_slice(&one[8..]);
    assert_eq!(State::from_storage(Some(bytes)).err(), Some(ContractError::DecodeError));
}

#[test]
fn corrupt_store_refuses_every_command() {
    let r = option_contract::execute(
        Some(vec![9]),
        &s("alice"),
        option_contract::msg::ExecuteMsg::Expire { contract_id: s("alice") },
    );
    assert_eq!(r, Err(ContractError::DecodeError));
}
