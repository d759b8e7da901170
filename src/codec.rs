//! The byte layout of a persisted store, and its round trip.
//!
//! A store is its entry count followed by its entries. An entry is its id,
//! owner and underlying, strike price, expiration, contract type, bid price
//! and ask price. A number is eight little-endian bytes; a string is its
//! UTF-8 length as a number, then its UTF-8 bytes.
use vstd::prelude::*;
use vstd::bytes::{
    lemma_auto_spec_u64_to_from_le_bytes, spec_u64_from_le_bytes, spec_u64_to_le_bytes,
};
use vstd::utf8::{decode_utf8, decode_utf8_encode_utf8, encode_utf8, encode_utf8_decode_utf8,
    encode_utf8_valid_utf8, valid_utf8,
};
use vstd::bytes::{u64_from_le_bytes, u64_to_le_bytes};
use vstd::slice::{slice_subrange, slice_to_vec};
use crate::error::ContractError;
use crate::state::{
    lemma_map_of_absent, unique_ids, ContractView, EntryView, OptionsContract, State,
};

verus! {

pub open spec fn enc_u64(x: u64) -> Seq<u8> {
    spec_u64_to_le_bytes(x)
}

pub open spec fn enc_str(s: Seq<char>) -> Seq<u8> {
    enc_u64(encode_utf8(s).len() as u64) + encode_utf8(s)
}

pub open spec fn enc_record(e: EntryView) -> Seq<u8> {
    enc_str(e.0) + enc_str(e.1.owner) + enc_str(e.1.underlying) + enc_u64(e.1.strike_price)
        + enc_u64(e.1.expiration) + enc_str(e.1.contract_type) + enc_u64(e.1.bid_price) + enc_u64(
        e.1.ask_price,
    )
}

pub open spec fn enc_entries(s: Seq<EntryView>) -> Seq<u8>
    decreases s.len(),
{
    if s.len() == 0 {
        Seq::empty()
    } else {
        enc_entries(s.drop_last()) + enc_record(s.last())
    }
}

/// The bytes that a store with these entries is saved as.
pub open spec fn encode_store(s: Seq<EntryView>) -> Seq<u8> {
    enc_u64(s.len() as u64) + enc_entries(s)
}

pub open spec fn take_u64(b: Seq<u8>) -> Option<(u64, Seq<u8>)> {
    if b.len() >= 8 {
        Some((spec_u64_from_le_bytes(b.take(8)), b.skip(8)))
    } else {
        None
    }
}

pub open spec fn take_str(b: Seq<u8>) -> Option<(Seq<char>, Seq<u8>)> {
    match take_u64(b) {
        None => None,
        Some((n, r)) => if n <= r.len() && valid_utf8(r.take(n as int)) {
            Some((decode_utf8(r.take(n as int)), r.skip(n as int)))
        } else {
            None
        },
    }
}

pub open spec fn take_record(b0: Seq<u8>) -> Option<(EntryView, Seq<u8>)> {
    match take_str(b0) {
        None => None,
        Some((id, b1)) => match take_str(b1) {
            None => None,
            Some((owner, b2)) => match take_str(b2) {
                None => None,
                Some((underlying, b3)) => match take_u64(b3) {
                    None => None,
                    Some((strike_price, b4)) => match take_u64(b4) {
                        None => None,
                        Some((expiration, b5)) => match take_str(b5) {
                            None => None,
                            Some((contract_type, b6)) => match take_u64(b6) {
                                None => None,
                                Some((bid_price, b7)) => match take_u64(b7) {
                                    None => None,
                                    Some((ask_price, b8)) => Some(
                                        (
                                            (
                                                id,
                                                ContractView {
                                                    owner,
                                                    underlying,
                                                    strike_price,
                                                    expiration,
                                                    contract_type,
                                                    bid_price,
                                                    ask_price,
                                                },
                                            ),
                                            b8,
                                        ),
                                    ),
                                },
                            },
                        },
                    },
                },
            },
        },
    }
}

pub open spec fn take_entries(b: Seq<u8>, n: nat) -> Option<(Seq<EntryView>, Seq<u8>)>
    decreases n,
{
    if n == 0 {
        Some((Seq::empty(), b))
    } else {
        match take_record(b) {
            None => None,
            Some((e, r)) => match take_entries(r, (n - 1) as nat) {
                None => None,
                Some((es, r2)) => Some((seq![e] + es, r2)),
            },
        }
    }
}

/// The entries that `b` holds, if it is a valid store: well-formed
/// entries, exactly as many as announced, no bytes left over and no id
/// twice.
pub open spec fn decode_store(b: Seq<u8>) -> Option<Seq<EntryView>> {
    match take_u64(b) {
        None => None,
        Some((n, r)) => match take_entries(r, n as nat) {
            None => None,
            Some((es, rest)) => if rest.len() == 0 && unique_ids(es) {
                Some(es)
            } else {
                None
            },
        },
    }
}

/// Every string of the entry has a UTF-8 length that a number can hold.
pub open spec fn record_fits(e: EntryView) -> bool {
    &&& encode_utf8(e.0).len() <= u64::MAX
    &&& encode_utf8(e.1.owner).len() <= u64::MAX
    &&& encode_utf8(e.1.underlying).len() <= u64::MAX
    &&& encode_utf8(e.1.contract_type).len() <= u64::MAX
}

/// The entry count and every string length can be written as a number.
pub open spec fn fits(s: Seq<EntryView>) -> bool {
    &&& s.len() <= u64::MAX
    &&& forall|i: int| 0 <= i < s.len() ==> record_fits(#[trigger] s[i])
}

proof fn lemma_take_u64(x: u64, r: Seq<u8>)
    ensures
        take_u64(enc_u64(x) + r) == Some((x, r)),
{
    lemma_auto_spec_u64_to_from_le_bytes();
    let b = enc_u64(x) + r;
    assert(b.take(8) =~= enc_u64(x));
    assert(b.skip(8) =~= r);
}

proof fn lemma_take_str(s: Seq<char>, r: Seq<u8>)
    requires
        encode_utf8(s).len() <= u64::MAX,
    ensures
        take_str(enc_str(s) + r) == Some((s, r)),
{
    let u = encode_utf8(s);
    let n = u.len() as u64;
    assert(enc_str(s) + r =~= enc_u64(n) + (u + r));
    lemma_take_u64(n, u + r);
    assert((u + r).take(n as int) =~= u);
    assert((u + r).skip(n as int) =~= r);
    encode_utf8_valid_utf8(s);
    encode_utf8_decode_utf8(s);
}

proof fn lemma_take_record(e: EntryView, r: Seq<u8>)
    requires
        record_fits(e),
    ensures
        take_record(enc_record(e) + r) == Some((e, r)),
{
    let c = e.1;
    let b8 = r;
    let b7 = enc_u64(c.ask_price) + b8;
    let b6 = enc_u64(c.bid_price) + b7;
    let b5 = enc_str(c.contract_type) + b6;
    let b4 = enc_u64(c.expiration) + b5;
    let b3 = enc_u64(c.strike_price) + b4;
    let b2 = enc_str(c.underlying) + b3;
    let b1 = enc_str(c.owner) + b2;
    let b0 = enc_str(e.0) + b1;
    assert(enc_record(e) + r =~= b0);
    lemma_take_str(e.0, b1);
    lemma_take_str(c.owner, b2);
    lemma_take_str(c.underlying, b3);
    lemma_take_u64(c.strike_price, b4);
    lemma_take_u64(c.expiration, b5);
    lemma_take_str(c.contract_type, b6);
    lemma_take_u64(c.bid_price, b7);
    lemma_take_u64(c.ask_price, b8);
}

proof fn lemma_enc_entries_front(e: EntryView, s: Seq<EntryView>)
    ensures
        enc_entries(seq![e] + s) == enc_record(e) + enc_entries(s),
    decreases s.len(),
{
    if s.len() == 0 {
        assert((seq![e] + s).drop_last() =~= Seq::<EntryView>::empty());
        assert((seq![e] + s).last() == e);
        assert(enc_entries(Seq::<EntryView>::empty()) == Seq::<u8>::empty());
        assert(enc_entries(seq![e] + s) =~= enc_record(e) + enc_entries(s));
    } else {
        assert((seq![e] + s).drop_last() =~= seq![e] + s.drop_last());
        assert((seq![e] + s).last() == s.last());
        lemma_enc_entries_front(e, s.drop_last());
        assert(enc_entries(seq![e] + s) == enc_record(e) + enc_entries(s.drop_last()) + enc_record(
            s.last(),
        ));
        assert(enc_entries(seq![e] + s) =~= enc_record(e) + enc_entries(s));
    }
}

proof fn lemma_take_entries(s: Seq<EntryView>, r: Seq<u8>)
    requires
        forall|i: int| 0 <= i < s.len() ==> record_fits(#[trigger] s[i]),
    ensures
        take_entries(enc_entries(s) + r, s.len()) == Some((s, r)),
    decreases s.len(),
{
    if s.len() > 0 {
        let t = s.drop_first();
        assert(s =~= seq![s[0]] + t);
        lemma_enc_entries_front(s[0], t);
        assert(enc_entries(s) + r =~= enc_record(s[0]) + (enc_entries(t) + r));
        lemma_take_record(s[0], enc_entries(t) + r);
        assert forall|i: int| 0 <= i < t.len() implies record_fits(#[trigger] t[i]) by {
            assert(t[i] == s[i + 1]);
        }
        lemma_take_entries(t, r);
    }
}

proof fn lemma_take_str_fits(b: Seq<u8>)
    requires
        take_str(b) is Some,
    ensures
        encode_utf8(take_str(b)->Some_0.0).len() <= u64::MAX,
{
    let (n, r) = take_u64(b)->Some_0;
    decode_utf8_encode_utf8(r.take(n as int));
}

proof fn lemma_take_record_fits(b: Seq<u8>)
    requires
        take_record(b) is Some,
    ensures
        record_fits(take_record(b)->Some_0.0),
{
    let b1 = take_str(b)->Some_0.1;
    let b2 = take_str(b1)->Some_0.1;
    let b3 = take_str(b2)->Some_0.1;
    let b4 = take_u64(b3)->Some_0.1;
    let b5 = take_u64(b4)->Some_0.1;
    lemma_take_str_fits(b);
    lemma_take_str_fits(b1);
    lemma_take_str_fits(b2);
    lemma_take_str_fits(b5);
}

proof fn lemma_take_entries_fits(b: Seq<u8>, n: nat)
    requires
        take_entries(b, n) is Some,
    ensures
        take_entries(b, n)->Some_0.0.len() == n,
        forall|i: int|
            0 <= i < n ==> record_fits(#[trigger] take_entries(b, n)->Some_0.0[i]),
    decreases n,
{
    if n > 0 {
        let (e, r) = take_record(b)->Some_0;
        lemma_take_record_fits(b);
        lemma_take_entries_fits(r, (n - 1) as nat);
        let es = take_entries(r, (n - 1) as nat)->Some_0.0;
        assert forall|i: int| 0 <= i < n implies record_fits(
            #[trigger] take_entries(b, n)->Some_0.0[i],
        ) by {
            if i > 0 {
                assert(take_entries(b, n)->Some_0.0[i] == es[i - 1]);
            }
        }
    }
}

/// Every store that `encode_store` can write is read back unchanged.
pub proof fn lemma_encode_decode(s: Seq<EntryView>)
    requires
        fits(s),
        unique_ids(s),
    ensures
        decode_store(encode_store(s)) == Some(s),
{
    lemma_take_u64(s.len() as u64, enc_entries(s));
    assert(enc_entries(s) =~= enc_entries(s) + Seq::<u8>::empty());
    lemma_take_entries(s, Seq::<u8>::empty());
}

/// What a valid store's bytes hold can always be written again.
pub proof fn lemma_decoded_fits(b: Seq<u8>)
    requires
        decode_store(b) is Some,
    ensures
        fits(decode_store(b)->Some_0),
        unique_ids(decode_store(b)->Some_0),
{
    let (n, r) = take_u64(b)->Some_0;
    lemma_take_entries_fits(r, n as nat);
}

/// Loading a store, saving it and loading the saved bytes again gives the
/// same entries, hence the same contracts under the same ids.
pub proof fn lemma_round_trip(b: Seq<u8>)
    requires
        decode_store(b) is Some,
    ensures
        decode_store(encode_store(decode_store(b)->Some_0)) == decode_store(b),
{
    lemma_decoded_fits(b);
    lemma_encode_decode(decode_store(b)->Some_0);
}

/// Relies on `String::from_utf8`: it accepts exactly the valid UTF-8 byte
/// sequences and returns the text that they encode.
#[verifier::external_body]
fn string_from_utf8(bytes: Vec<u8>) -> (r: Option<String>)
    ensures
        match r {
            Some(s) => valid_utf8(bytes@) && s@ == decode_utf8(bytes@),
            None => !valid_utf8(bytes@),
        },
{
    String::from_utf8(bytes).ok()
}

fn read_u64(b: &Vec<u8>, pos: usize) -> (r: Option<(u64, usize)>)
    requires
        pos <= b@.len(),
    ensures
        match take_u64(b@.skip(pos as int)) {
            None => r is None,
            Some((x, rest)) => r is Some && r->Some_0.0 == x && r->Some_0.1 <= b@.len()
                && rest == b@.skip(r->Some_0.1 as int),
        },
{
    if b.len() - pos < 8 {
        return None;
    }
    let s = slice_subrange(b.as_slice(), pos, pos + 8);
    let x = u64_from_le_bytes(s);
    assert(b@.skip(pos as int).take(8) =~= s@);
    assert(b@.skip(pos as int).skip(8) =~= b@.skip(pos + 8));
    Some((x, pos + 8))
}

fn read_str(b: &Vec<u8>, pos: usize) -> (r: Option<(String, usize)>)
    requires
        pos <= b@.len(),
    ensures
        match take_str(b@.skip(pos as int)) {
            None => r is None,
            Some((s, rest)) => r is Some && r->Some_0.0@ == s && r->Some_0.1 <= b@.len()
                && rest == b@.skip(r->Some_0.1 as int),
        },
{
    let (n, p) = match read_u64(b, pos) {
        None => {
            return None;
        },
        Some(v) => v,
    };
    if n > (b.len() - p) as u64 {
        return None;
    }
    let q = p + n as usize;
    let bytes = slice_to_vec(slice_subrange(b.as_slice(), p, q));
    assert(b@.skip(p as int).take(n as int) =~= bytes@);
    assert(b@.skip(p as int).skip(n as int) =~= b@.skip(q as int));
    match string_from_utf8(bytes) {
        None => None,
        Some(s) => Some((s, q)),
    }
}

fn read_record(b: &Vec<u8>, pos: usize) -> (r: Option<(String, OptionsContract, usize)>)
    requires
        pos <= b@.len(),
    ensures
        match take_record(b@.skip(pos as int)) {
            None => r is None,
            Some((e, rest)) => r is Some && (r->Some_0.0@, r->Some_0.1@) == e && r->Some_0.2
                <= b@.len() && rest == b@.skip(r->Some_0.2 as int),
        },
{
    let (id, p) = match read_str(b, pos) {
        None => {
            return None;
        },
        Some(v) => v,
    };
    let (owner, p) = match read_str(b, p) {
        None => {
            return None;
        },
        Some(v) => v,
    };
    let (underlying, p) = match read_str(b, p) {
        None => {
            return None;
        },
        Some(v) => v,
    };
    let (strike_price, p) = match read_u64(b, p) {
        None => {
            return None;
        },
        Some(v) => v,
    };
    let (expiration, p) = match read_u64(b, p) {
        None => {
            return None;
        },
        Some(v) => v,
    };
    let (contract_type, p) = match read_str(b, p) {
        None => {
            return None;
        },
        Some(v) => v,
    };
    let (bid_price, p) = match read_u64(b, p) {
        None => {
            return None;
        },
        Some(v) => v,
    };
    let (ask_price, p) = match read_u64(b, p) {
        None => {
            return None;
        },
        Some(v) => v,
    };
    let record = OptionsContract {
        owner,
        underlying,
        strike_price,
        expiration,
        contract_type,
        bid_price,
        ask_price,
    };
    Some((id, record, p))
}

fn decode(b: &Vec<u8>) -> (r: Result<State, ContractError>)
    ensures
        match decode_store(b@) {
            None => r == Err::<State, ContractError>(ContractError::DecodeError),
            Some(es) => r is Ok && r->Ok_0.wf() && r->Ok_0.entries() == es,
        },
{
    assert(b@.skip(0) =~= b@);
    let (n, mut pos) = match read_u64(b, 0) {
        None => {
            return Err(ContractError::DecodeError);
        },
        Some(v) => v,
    };
    let ghost body = b@.skip(pos as int);
    let mut st = State::new();
    assert(st.entries() + Seq::<EntryView>::empty() =~= Seq::<EntryView>::empty());
    let mut k: u64 = 0;
    while k < n
        invariant
            pos <= b@.len(),
            k <= n,
            st.wf(),
            body == take_u64(b@)->Some_0.1,
            n == take_u64(b@)->Some_0.0,
            match take_entries(b@.skip(pos as int), (n - k) as nat) {
                None => take_entries(body, n as nat) is None,
                Some((es, rest)) => take_entries(body, n as nat) == Some((st.entries() + es, rest)),
            },
        decreases n - k,
    {
        let ghost cur = b@.skip(pos as int);
        let ghost left = (n - k) as nat;
        let (id, record, p) = match read_record(b, pos) {
            None => {
                return Err(ContractError::DecodeError);
            },
            Some(v) => v,
        };
        let ghost e = (id@, record@);
        let ghost tail = take_entries(b@.skip(p as int), (left - 1) as nat);
        assert(take_entries(cur, left) == match tail {
            None => None,
            Some((es, r2)) => Some((seq![e] + es, r2)),
        });
        if st.contains_key(&id) {
            proof {
                let before = st.entries();
                if forall|i: int| 0 <= i < before.len() ==> #[trigger] before[i].0 != id@ {
                    lemma_map_of_absent(before, id@);
                }
                let i = choose|i: int| 0 <= i < before.len() && #[trigger] before[i].0 == id@;
                if let Some((es, r2)) = tail {
                    let all = before + (seq![e] + es);
                    assert(all[i].0 == all[before.len() as int].0);
                }
            }
            return Err(ContractError::DecodeError);
        }
        let ghost before = st.entries();
        st.insert(id, record);
        proof {
            if let Some((es, r2)) = tail {
                assert(before + (seq![e] + es) =~= st.entries() + es);
            }
        }
        pos = p;
        k = k + 1;
    }
    assert(st.entries() + Seq::<EntryView>::empty() =~= st.entries());
    if pos != b.len() {
        assert(b@.skip(pos as int).len() > 0);
        return Err(ContractError::DecodeError);
    }
    Ok(st)
}

fn push_u64(out: &mut Vec<u8>, x: u64)
    ensures
        final(out)@ == old(out)@ + enc_u64(x),
{
    let mut b = u64_to_le_bytes(x);
    out.append(&mut b);
}

fn push_str(out: &mut Vec<u8>, s: &String)
    ensures
        final(out)@ == old(out)@ + enc_str(s@),
        encode_utf8(s@).len() <= u64::MAX,
{
    let b = s.as_str().as_bytes();
    push_u64(out, b.len() as u64);
    let mut v = slice_to_vec(b);
    out.append(&mut v);
    assert(final(out)@ =~= old(out)@ + enc_str(s@));
}

impl State {
    /// Reads a store from what was persisted: none yet gives the empty
    /// store; bytes that are not a valid store give `DecodeError`.
    pub fn from_storage(data: Option<Vec<u8>>) -> (r: Result<State, ContractError>)
        ensures
            match data {
                None => r is Ok && r->Ok_0.wf() && r->Ok_0.entries() == Seq::<EntryView>::empty(),
                Some(b) => match decode_store(b@) {
                    None => r == Err::<State, ContractError>(ContractError::DecodeError),
                    Some(es) => r is Ok && r->Ok_0.wf() && r->Ok_0.entries() == es,
                },
            },
    {
        match data {
            None => Ok(State::new()),
            Some(b) => decode(&b),
        }
    }

    /// The bytes to persist for this store.
    pub fn save(&self) -> (r: Vec<u8>)
        ensures
            r@ == encode_store(self.entries()),
            fits(self.entries()),
            self.wf() ==> decode_store(r@) == Some(self.entries()),
    {
        let ghost es = self.entries();
        let mut out: Vec<u8> = Vec::new();
        push_u64(&mut out, self.contracts.len() as u64);
        assert(es.take(0) =~= Seq::<EntryView>::empty());
        assert(out@ =~= enc_u64(es.len() as u64) + enc_entries(es.take(0)));
        let mut i: usize = 0;
        while i < self.contracts.len()
            invariant
                i <= self.contracts@.len(),
                es == self.entries(),
                out@ == enc_u64(es.len() as u64) + enc_entries(es.take(i as int)),
                forall|j: int| 0 <= j < i ==> record_fits(#[trigger] es[j]),
            decreases self.contracts@.len() - i,
        {
            let ghost start = out@;
            let id = &self.contracts[i].0;
            let c = &self.contracts[i].1;
            push_str(&mut out, id);
            push_str(&mut out, &c.owner);
            push_str(&mut out, &c.underlying);
            push_u64(&mut out, c.strike_price);
            push_u64(&mut out, c.expiration);
            push_str(&mut out, &c.contract_type);
            push_u64(&mut out, c.bid_price);
            push_u64(&mut out, c.ask_price);
            proof {
                assert(es[i as int] == (id@, c@));
                assert(es.take(i + 1).drop_last() =~= es.take(i as int));
                assert(out@ =~= start + enc_record(es[i as int]));
            }
            i = i + 1;
        }
        assert(es.take(es.len() as int) =~= es);
        proof {
            if self.wf() {
                lemma_encode_decode(es);
            }
        }
        out
    }
}

} // verus!
