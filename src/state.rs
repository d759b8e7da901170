//! The contract record, the store that maps contract ids to records, and
//! the store's model as a map.
use vstd::prelude::*;

verus! {

/// The mathematical value of one contract record.
pub struct ContractView {
    pub owner: Seq<char>,
    pub underlying: Seq<char>,
    pub strike_price: u64,
    pub expiration: u64,
    pub contract_type: Seq<char>,
    pub bid_price: u64,
    pub ask_price: u64,
}

impl ContractView {
    /// The same record with another owner.
    pub open spec fn with_owner(self, owner: Seq<char>) -> ContractView {
        ContractView { owner, ..self }
    }

    /// The same record with a new bid and the bidder as owner.
    pub open spec fn with_bid(self, bidder: Seq<char>, amount: u64) -> ContractView {
        ContractView { owner: bidder, bid_price: amount, ..self }
    }
}

/// One options contract.
pub struct OptionsContract {
    pub owner: String,
    pub underlying: String,
    pub strike_price: u64,
    pub expiration: u64,
    /// Conventionally "call" or "put".
    pub contract_type: String,
    pub bid_price: u64,
    pub ask_price: u64,
}

impl View for OptionsContract {
    type V = ContractView;

    open spec fn view(&self) -> ContractView {
        ContractView {
            owner: self.owner@,
            underlying: self.underlying@,
            strike_price: self.strike_price,
            expiration: self.expiration,
            contract_type: self.contract_type@,
            bid_price: self.bid_price,
            ask_price: self.ask_price,
        }
    }
}

impl OptionsContract {
    /// A copy of this record whose owner is `owner`.
    pub fn with_owner(&self, owner: String) -> (r: OptionsContract)
        ensures
            r@ == self@.with_owner(owner@),
    {
        OptionsContract {
            owner,
            underlying: self.underlying.clone(),
            strike_price: self.strike_price,
            expiration: self.expiration,
            contract_type: self.contract_type.clone(),
            bid_price: self.bid_price,
            ask_price: self.ask_price,
        }
    }

    /// A copy of this record holding the bid `amount`, owned by `bidder`.
    pub fn with_bid(&self, bidder: String, amount: u64) -> (r: OptionsContract)
        ensures
            r@ == self@.with_bid(bidder@, amount),
    {
        OptionsContract {
            owner: bidder,
            underlying: self.underlying.clone(),
            strike_price: self.strike_price,
            expiration: self.expiration,
            contract_type: self.contract_type.clone(),
            bid_price: amount,
            ask_price: self.ask_price,
        }
    }
}

/// An entry of the store: a contract id and its record.
pub type EntryView = (Seq<char>, ContractView);

/// No two entries share an id.
pub open spec fn unique_ids(s: Seq<EntryView>) -> bool {
    forall|i: int, j: int| 0 <= i < j < s.len() ==> #[trigger] s[i].0 != #[trigger] s[j].0
}

/// The map that a sequence of entries stands for; a later entry wins.
pub open spec fn map_of(s: Seq<EntryView>) -> Map<Seq<char>, ContractView>
    decreases s.len(),
{
    if s.len() == 0 {
        Map::empty()
    } else {
        map_of(s.drop_last()).insert(s.last().0, s.last().1)
    }
}

/// An id that no entry has is not a key of the map.
pub proof fn lemma_map_of_absent(s: Seq<EntryView>, k: Seq<char>)
    requires
        forall|i: int| 0 <= i < s.len() ==> #[trigger] s[i].0 != k,
    ensures
        !map_of(s).contains_key(k),
    decreases s.len(),
{
    if s.len() > 0 {
        lemma_map_of_absent(s.drop_last(), k);
    }
}

/// Each entry is found in the map.
pub proof fn lemma_map_of_lookup(s: Seq<EntryView>, i: int)
    requires
        unique_ids(s),
        0 <= i < s.len(),
    ensures
        map_of(s).contains_key(s[i].0),
        map_of(s)[s[i].0] == s[i].1,
    decreases s.len(),
{
    if i < s.len() - 1 {
        lemma_map_of_lookup(s.drop_last(), i);
    }
}

/// Replacing the record of an entry replaces it in the map.
pub proof fn lemma_map_of_update(s: Seq<EntryView>, i: int, v: ContractView)
    requires
        unique_ids(s),
        0 <= i < s.len(),
    ensures
        map_of(s.update(i, (s[i].0, v))) == map_of(s).insert(s[i].0, v),
        unique_ids(s.update(i, (s[i].0, v))),
    decreases s.len(),
{
    let k = s[i].0;
    let t = s.update(i, (k, v));
    assert(t.drop_last() =~= if i == s.len() - 1 {
        s.drop_last()
    } else {
        s.drop_last().update(i, (k, v))
    });
    if i < s.len() - 1 {
        lemma_map_of_update(s.drop_last(), i, v);
        assert(map_of(t) =~= map_of(s).insert(k, v));
    } else {
        assert(map_of(t) =~= map_of(s).insert(k, v));
    }
    assert(unique_ids(t)) by {
        assert forall|a: int, b: int| 0 <= a < b < t.len() implies #[trigger] t[a].0
            != #[trigger] t[b].0 by {
            assert(s[a].0 != s[b].0);
        }
    }
}

/// Dropping an entry removes its id from the map.
pub proof fn lemma_map_of_remove(s: Seq<EntryView>, i: int)
    requires
        unique_ids(s),
        0 <= i < s.len(),
    ensures
        map_of(s.remove(i)) == map_of(s).remove(s[i].0),
        unique_ids(s.remove(i)),
    decreases s.len(),
{
    let k = s[i].0;
    let t = s.remove(i);
    if i == s.len() - 1 {
        assert(t =~= s.drop_last());
        assert forall|j: int| 0 <= j < t.len() implies #[trigger] t[j].0 != k by {
            assert(s[j].0 != s[i].0);
        }
        lemma_map_of_absent(t, k);
        assert(map_of(t) =~= map_of(s).remove(k));
    } else {
        assert(t.drop_last() =~= s.drop_last().remove(i));
        lemma_map_of_remove(s.drop_last(), i);
        assert(s.last().0 != k);
        assert(map_of(t) =~= map_of(s).remove(k));
    }
}

/// Adding an entry under a new id adds it to the map.
pub proof fn lemma_map_of_push(s: Seq<EntryView>, e: EntryView)
    requires
        unique_ids(s),
        forall|i: int| 0 <= i < s.len() ==> #[trigger] s[i].0 != e.0,
    ensures
        map_of(s.push(e)) == map_of(s).insert(e.0, e.1),
        unique_ids(s.push(e)),
{
    assert(s.push(e).drop_last() =~= s);
    let t = s.push(e);
    assert forall|a: int, b: int| 0 <= a < b < t.len() implies #[trigger] t[a].0
        != #[trigger] t[b].0 by {
        if b == s.len() {
            assert(s[a].0 != e.0);
        } else {
            assert(s[a].0 != s[b].0);
        }
    }
}

/// The number of keys of the map is the number of entries.
pub proof fn lemma_map_of_len(s: Seq<EntryView>)
    requires
        unique_ids(s),
    ensures
        map_of(s).dom().finite(),
        map_of(s).dom().len() == s.len(),
    decreases s.len(),
{
    if s.len() > 0 {
        let d = s.drop_last();
        assert(unique_ids(d));
        lemma_map_of_len(d);
        assert forall|j: int| 0 <= j < d.len() implies #[trigger] d[j].0 != s.last().0 by {
            assert(s[j].0 != s[s.len() - 1].0);
        }
        lemma_map_of_absent(d, s.last().0);
    }
}

/// The whole set of live contracts, keyed by contract id.
pub struct State {
    /// The entries, at most one per id.
    pub contracts: Vec<(String, OptionsContract)>,
}

impl View for State {
    type V = Map<Seq<char>, ContractView>;

    open spec fn view(&self) -> Map<Seq<char>, ContractView> {
        map_of(self.entries())
    }
}

impl State {
    /// The entries as plain values, in storage order.
    pub open spec fn entries(&self) -> Seq<EntryView> {
        self.contracts@.map_values(|e: (String, OptionsContract)| (e.0@, e.1@))
    }

    /// No two entries share an id.
    pub open spec fn wf(&self) -> bool {
        unique_ids(self.entries())
    }

    /// The empty store.
    pub fn new() -> (r: State)
        ensures
            r.wf(),
            r@ == Map::<Seq<char>, ContractView>::empty(),
            r.entries() == Seq::<EntryView>::empty(),
    {
        let r = State { contracts: Vec::new() };
        assert(r.entries() =~= Seq::<EntryView>::empty());
        r
    }

    /// The number of live contracts.
    pub fn len(&self) -> (r: usize)
        requires
            self.wf(),
        ensures
            r == self@.len(),
    {
        proof {
            lemma_map_of_len(self.entries());
        }
        self.contracts.len()
    }

    /// The position of the entry with id `id`, if there is one.
    fn find(&self, id: &String) -> (r: Option<usize>)
        ensures
            match r {
                Some(i) => i < self.contracts@.len() && self.entries()[i as int].0 == id@,
                None => forall|j: int|
                    0 <= j < self.entries().len() ==> #[trigger] self.entries()[j].0 != id@,
            },
    {
        let mut i: usize = 0;
        while i < self.contracts.len()
            invariant
                i <= self.contracts@.len(),
                forall|j: int| 0 <= j < i ==> #[trigger] self.entries()[j].0 != id@,
            decreases self.contracts@.len() - i,
        {
            if self.contracts[i].0 == *id {
                return Some(i);
            }
            i = i + 1;
        }
        None
    }

    /// Whether a contract is stored under `id`.
    pub fn contains_key(&self, id: &String) -> (r: bool)
        requires
            self.wf(),
        ensures
            r == self@.contains_key(id@),
    {
        match self.find(id) {
            Some(i) => {
                proof {
                    lemma_map_of_lookup(self.entries(), i as int);
                }
                true
            },
            None => {
                proof {
                    lemma_map_of_absent(self.entries(), id@);
                }
                false
            },
        }
    }

    /// The contract stored under `id`, if there is one.
    pub fn get(&self, id: &String) -> (r: Option<&OptionsContract>)
        requires
            self.wf(),
        ensures
            match r {
                Some(c) => self@.contains_key(id@) && self@[id@] == c@,
                None => !self@.contains_key(id@),
            },
    {
        match self.find(id) {
            Some(i) => {
                proof {
                    lemma_map_of_lookup(self.entries(), i as int);
                }
                Some(&self.contracts[i].1)
            },
            None => {
                proof {
                    lemma_map_of_absent(self.entries(), id@);
                }
                None
            },
        }
    }

    /// Stores `record` under `id`, replacing any record stored there.
    pub fn insert(&mut self, id: String, record: OptionsContract)
        requires
            old(self).wf(),
        ensures
            final(self).wf(),
            final(self)@ == old(self)@.insert(id@, record@),
            !old(self)@.contains_key(id@) ==> final(self).entries() == old(self).entries().push(
                (id@, record@),
            ),
    {
        let ghost e = (id@, record@);
        match self.find(&id) {
            Some(i) => {
                proof {
                    lemma_map_of_lookup(self.entries(), i as int);
                    lemma_map_of_update(self.entries(), i as int, record@);
                }
                self.contracts.set(i, (id, record));
                assert(self.entries() =~= old(self).entries().update(i as int, e));
            },
            None => {
                proof {
                    lemma_map_of_push(self.entries(), e);
                }
                self.contracts.push((id, record));
                assert(self.entries() =~= old(self).entries().push(e));
            },
        }
    }

    /// Drops the record stored under `id`, if there is one.
    pub fn remove(&mut self, id: &String)
        requires
            old(self).wf(),
        ensures
            final(self).wf(),
            final(self)@ == old(self)@.remove(id@),
    {
        match self.find(id) {
            Some(i) => {
                proof {
                    lemma_map_of_remove(self.entries(), i as int);
                }
                self.contracts.remove(i);
                assert(self.entries() =~= old(self).entries().remove(i as int));
            },
            None => {
                proof {
                    lemma_map_of_absent(self.entries(), id@);
                    assert(self@ =~= self@.remove(id@));
                }
            },
        }
    }
}

} // verus!
