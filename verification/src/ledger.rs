//! The store of records: one account per owner, at the location derived
//! from the owner, holding the record's bytes. Each of the three operations
//! derives the caller's location, loads the record there, lets the operation
//! decide, and stores what it left.

use vstd::prelude::*;

use crate::address::{counter_location, derive_counter_location};
use crate::identity::Identity;
use crate::instructions::{
    increment, initialize, initialize_at, reset, Increment, Initialize, Reset,
};
use crate::layout::{
    lemma_record_round_trip, load, record_at, record_bytes, store, ACCOUNT_LEN, HEADER_LEN,
};
use crate::state::{Counter, CounterError, CounterView};

verus! {

/// Why an operation on the ledger did not take place.
#[derive(Clone, Copy, Debug, PartialEq, Eq, Structural)]
pub enum LedgerError {
    /// No storage location can be derived for the caller.
    NoLocation,
    /// A record already exists at the caller's location.
    LocationOccupied,
    /// No record exists at the caller's location.
    RecordNotFound,
    /// The host's clock could not be read.
    ClockUnavailable,
    /// The record refused the change.
    Counter(CounterError),
}

/// One occupied storage location and the bytes kept there.
#[derive(Debug)]
struct Account {
    address: Identity,
    data: Vec<u8>,
}

/// The records of all owners. Its view maps each occupied location to the
/// content of the record there.
#[derive(Debug)]
pub struct Ledger {
    accounts: Vec<Account>,
}

/// Every record lies at the location derived from its owner.
pub open spec fn placed_by_owner(records: Map<Seq<u8>, CounterView>) -> bool {
    forall|location: Seq<u8>| #[trigger]
        records.contains_key(location) ==> counter_location(records[location].owner) == Some(
            location,
        )
}

/// The record that belongs to `owner`, if the ledger holds it.
pub open spec fn record_of(records: Map<Seq<u8>, CounterView>, owner: Seq<u8>) -> Option<
    CounterView,
> {
    match counter_location(owner) {
        Some(location) => if records.contains_key(location) {
            Some(records[location])
        } else {
            None
        },
        None => None,
    }
}

/// Why storage refuses to create a record for `user`, if it does.
pub open spec fn initialize_refusal(records: Map<Seq<u8>, CounterView>, user: Seq<u8>) -> Option<
    LedgerError,
> {
    match counter_location(user) {
        None => Some(LedgerError::NoLocation),
        Some(location) => if records.contains_key(location) {
            Some(LedgerError::LocationOccupied)
        } else {
            None
        },
    }
}

/// What `initialize` by `user` at time `now` makes of the records.
pub open spec fn initialize_outcome(
    records: Map<Seq<u8>, CounterView>,
    user: Seq<u8>,
    now: int,
) -> Result<Map<Seq<u8>, CounterView>, LedgerError> {
    match initialize_refusal(records, user) {
        Some(e) => Err(e),
        None => Ok(records.insert(counter_location(user)->Some_0, CounterView::created(user, now))),
    }
}

/// What `increment` by `user` makes of the records.
pub open spec fn increment_outcome(records: Map<Seq<u8>, CounterView>, user: Seq<u8>) -> Result<
    Map<Seq<u8>, CounterView>,
    LedgerError,
> {
    match counter_location(user) {
        None => Err(LedgerError::NoLocation),
        Some(location) => if !records.contains_key(location) {
            Err(LedgerError::RecordNotFound)
        } else {
            match records[location].increment(user) {
                Ok(next) => Ok(records.insert(location, next)),
                Err(e) => Err(LedgerError::Counter(e)),
            }
        },
    }
}

/// What `reset` by `user` makes of the records.
pub open spec fn reset_outcome(records: Map<Seq<u8>, CounterView>, user: Seq<u8>) -> Result<
    Map<Seq<u8>, CounterView>,
    LedgerError,
> {
    match counter_location(user) {
        None => Err(LedgerError::NoLocation),
        Some(location) => if !records.contains_key(location) {
            Err(LedgerError::RecordNotFound)
        } else {
            match records[location].reset(user) {
                Ok(next) => Ok(records.insert(location, next)),
                Err(e) => Err(LedgerError::Counter(e)),
            }
        },
    }
}

/// What the caller is told of an outcome: that it succeeded, or why not.
pub open spec fn verdict(outcome: Result<Map<Seq<u8>, CounterView>, LedgerError>) -> Result<
    (),
    LedgerError,
> {
    match outcome {
        Ok(_) => Ok(()),
        Err(e) => Err(e),
    }
}

/// The records once an operation is over: those of its outcome where it
/// succeeded, the ones from before where it failed.
pub open spec fn settled(
    before: Map<Seq<u8>, CounterView>,
    outcome: Result<Map<Seq<u8>, CounterView>, LedgerError>,
) -> Map<Seq<u8>, CounterView> {
    match outcome {
        Ok(records) => records,
        Err(_) => before,
    }
}

/// The record that the bytes of an account spell.
spec fn content(account: Account) -> CounterView {
    record_at(account.data@.subrange(HEADER_LEN as int, ACCOUNT_LEN as int))
}

/// The account at index `i` lies at `location`.
spec fn lies_at(accounts: Seq<Account>, i: int, location: Seq<u8>) -> bool {
    0 <= i < accounts.len() && accounts[i].address@ == location
}

/// No location is occupied twice.
spec fn distinct(accounts: Seq<Account>) -> bool {
    forall|i: int, j: int|
        0 <= i < j < accounts.len() ==> accounts[i].address@ != accounts[j].address@
}

/// The map from occupied locations to record contents.
spec fn records_of(accounts: Seq<Account>) -> Map<Seq<u8>, CounterView> {
    Map::new(
        |location: Seq<u8>| exists|i: int| lies_at(accounts, i, location),
        |location: Seq<u8>| content(accounts[choose|i: int| lies_at(accounts, i, location)]),
    )
}

proof fn lemma_records_at(accounts: Seq<Account>, i: int)
    requires
        distinct(accounts),
        0 <= i < accounts.len(),
    ensures
        records_of(accounts).contains_key(accounts[i].address@),
        records_of(accounts)[accounts[i].address@] == content(accounts[i]),
{
    let location = accounts[i].address@;
    assert(lies_at(accounts, i, location));
    let k = choose|k: int| lies_at(accounts, k, location);
    assert(k == i);
}

proof fn lemma_records_push(accounts: Seq<Account>, account: Account)
    requires
        distinct(accounts),
        !records_of(accounts).contains_key(account.address@),
    ensures
        distinct(accounts.push(account)),
        records_of(accounts.push(account)) == records_of(accounts).insert(
            account.address@,
            content(account),
        ),
{
    let grown = accounts.push(account);
    assert forall|i: int, j: int| 0 <= i < j < grown.len() implies grown[i].address@
        != grown[j].address@ by {
        if j == accounts.len() {
            assert(lies_at(accounts, i, accounts[i].address@));
        }
    }
    let target = records_of(accounts).insert(account.address@, content(account));
    assert forall|location: Seq<u8>| #[trigger]
        records_of(grown).contains_key(location) <==> target.contains_key(location) by {
        if records_of(grown).contains_key(location) {
            let i = choose|i: int| lies_at(grown, i, location);
            if i < accounts.len() {
                assert(lies_at(accounts, i, location));
            }
        }
        if target.contains_key(location) {
            if location == account.address@ {
                assert(lies_at(grown, accounts.len() as int, location));
            } else {
                let i = choose|i: int| lies_at(accounts, i, location);
                assert(lies_at(grown, i, location));
            }
        }
    }
    assert forall|location: Seq<u8>| #[trigger]
        records_of(grown).contains_key(location) implies records_of(grown)[location]
        == target[location] by {
        let i = choose|i: int| lies_at(grown, i, location);
        lemma_records_at(grown, i);
        if i < accounts.len() {
            lemma_records_at(accounts, i);
        }
    }
    assert(records_of(grown) =~= target);
}

proof fn lemma_records_update(accounts: Seq<Account>, i: int, account: Account)
    requires
        distinct(accounts),
        0 <= i < accounts.len(),
        account.address@ == accounts[i].address@,
    ensures
        distinct(accounts.update(i, account)),
        records_of(accounts.update(i, account)) == records_of(accounts).insert(
            account.address@,
            content(account),
        ),
{
    let changed = accounts.update(i, account);
    assert forall|a: int, b: int| 0 <= a < b < changed.len() implies changed[a].address@
        != changed[b].address@ by {
        assert(changed[a].address@ == accounts[a].address@);
        assert(changed[b].address@ == accounts[b].address@);
    }
    let target = records_of(accounts).insert(account.address@, content(account));
    assert forall|location: Seq<u8>| #[trigger]
        records_of(changed).contains_key(location) <==> target.contains_key(location) by {
        if records_of(changed).contains_key(location) {
            let k = choose|k: int| lies_at(changed, k, location);
            assert(lies_at(accounts, k, location));
        }
        if target.contains_key(location) {
            if location == account.address@ {
                assert(lies_at(changed, i, location));
            } else {
                let k = choose|k: int| lies_at(accounts, k, location);
                assert(lies_at(changed, k, location));
            }
        }
    }
    assert forall|location: Seq<u8>| #[trigger]
        records_of(changed).contains_key(location) implies records_of(changed)[location]
        == target[location] by {
        let k = choose|k: int| lies_at(changed, k, location);
        lemma_records_at(changed, k);
        if k != i {
            lemma_records_at(accounts, k);
        }
    }
    assert(records_of(changed) =~= target);
}

impl View for Ledger {
    type V = Map<Seq<u8>, CounterView>;

    closed spec fn view(&self) -> Map<Seq<u8>, CounterView> {
        records_of(self.accounts@)
    }
}

impl Ledger {
    /// Every account holds the bytes of one record, no location is occupied
    /// twice, and every record lies at the location derived from its owner.
    pub closed spec fn wf(&self) -> bool {
        &&& distinct(self.accounts@)
        &&& forall|i: int|
            0 <= i < self.accounts@.len() ==> {
                &&& (#[trigger] self.accounts@[i]).data@.len() == ACCOUNT_LEN
                &&& counter_location(content(self.accounts@[i]).owner) == Some(
                    self.accounts@[i].address@,
                )
            }
    }

    /// In a well-formed ledger every record lies at its owner's location.
    pub proof fn lemma_placed_by_owner(&self)
        requires
            self.wf(),
        ensures
            placed_by_owner(self@),
    {
        assert forall|location: Seq<u8>| #[trigger] self@.contains_key(location) implies
            counter_location(self@[location].owner) == Some(location) by {
            let i = choose|i: int| lies_at(self.accounts@, i, location);
            lemma_records_at(self.accounts@, i);
        }
    }

    /// A ledger without records.
    pub fn new() -> (r: Ledger)
        ensures
            r.wf(),
            r@ == Map::<Seq<u8>, CounterView>::empty(),
    {
        let r = Ledger { accounts: Vec::new() };
        assert(r@ =~= Map::<Seq<u8>, CounterView>::empty());
        r
    }

    /// The index of the account at `location`, if it is occupied.
    fn position(&self, location: &Identity) -> (r: Option<usize>)
        requires
            self.wf(),
        ensures
            match r {
                Some(i) => lies_at(self.accounts@, i as int, location@) && self@.contains_key(
                    location@,
                ) && self@[location@] == content(self.accounts@[i as int]),
                None => !self@.contains_key(location@),
            },
    {
        let mut i: usize = 0;
        while i < self.accounts.len()
            invariant
                self.wf(),
                i <= self.accounts.len(),
                forall|k: int| 0 <= k < i ==> !lies_at(self.accounts@, k, location@),
            decreases self.accounts.len() - i,
        {
            if self.accounts[i].address == *location {
                proof {
                    lemma_records_at(self.accounts@, i as int);
                }
                return Some(i);
            }
            i += 1;
        }
        None
    }

    /// A new account at `location` that holds `counter` behind a blank header.
    fn allocate(location: Identity, counter: &Counter) -> (r: Account)
        ensures
            r.address == location,
            r.data@.len() == ACCOUNT_LEN,
            content(r) == counter@,
    {
        let mut data: Vec<u8> = Vec::new();
        while data.len() < ACCOUNT_LEN
            invariant
                data@.len() <= ACCOUNT_LEN,
            decreases ACCOUNT_LEN - data@.len(),
        {
            data.push(0);
        }
        store(&mut data, counter);
        proof {
            Identity::lemma_len(counter.owner);
            lemma_record_round_trip(counter@);
            assert(data@.subrange(HEADER_LEN as int, ACCOUNT_LEN as int) =~= record_bytes(
                counter@,
            ));
        }
        Account { address: location, data }
    }

    /// Stores `counter` in the account at index `i`, in place of the record
    /// there, which has the same owner.
    fn persist(&mut self, i: usize, counter: &Counter)
        requires
            old(self).wf(),
            i < old(self).accounts@.len(),
            counter.owner@ == content(old(self).accounts@[i as int]).owner,
        ensures
            final(self).wf(),
            final(self)@ == old(self)@.insert(
                old(self).accounts@[i as int].address@,
                counter@,
            ),
    {
        let ghost before = self.accounts@;
        store(&mut self.accounts[i].data, counter);
        proof {
            Identity::lemma_len(counter.owner);
            lemma_record_round_trip(counter@);
            let account = self.accounts@[i as int];
            assert(account.data@.subrange(HEADER_LEN as int, ACCOUNT_LEN as int) =~= record_bytes(
                counter@,
            ));
            assert(account.address == before[i as int].address);
            assert(self.accounts@ =~= before.update(i as int, account));
            lemma_records_update(before, i as int, account);
        }
    }

    /// The record that belongs to `owner`, if the ledger holds it.
    pub fn record(&self, owner: &Identity) -> (r: Option<Counter>)
        requires
            self.wf(),
        ensures
            match r {
                Some(counter) => record_of(self@, owner@) == Some(counter@),
                None => record_of(self@, owner@) is None,
            },
    {
        match derive_counter_location(owner) {
            None => None,
            Some(location) => match self.position(&location) {
                None => None,
                Some(i) => load(self.accounts[i].data.as_slice()),
            },
        }
    }

    /// Creates the record of `user` at the time `now`, at the location
    /// derived from `user`, unless that location is occupied.
    pub fn initialize_at(&mut self, user: &Identity, now: i64) -> (r: Result<(), LedgerError>)
        requires
            old(self).wf(),
        ensures
            final(self).wf(),
            r == verdict(initialize_outcome(old(self)@, user@, now as int)),
            final(self)@ == settled(old(self)@, initialize_outcome(old(self)@, user@, now as int)),
    {
        let location = match derive_counter_location(user) {
            Some(location) => location,
            None => {
                return Err(LedgerError::NoLocation);
            },
        };
        if self.position(&location).is_some() {
            return Err(LedgerError::LocationOccupied);
        }
        let mut ctx = Initialize { counter: Counter::zeroed(), user: *user };
        initialize_at(&mut ctx, now);
        let account = Self::allocate(location, &ctx.counter);
        proof {
            lemma_records_push(self.accounts@, account);
        }
        self.accounts.push(account);
        Ok(())
    }

    /// Creates the record of `user` at the time the host's clock gives, at
    /// the location derived from `user`, unless that location is occupied.
    pub fn initialize(&mut self, user: &Identity) -> (r: Result<(), LedgerError>)
        requires
            old(self).wf(),
        ensures
            final(self).wf(),
            r is Ok ==> exists|now: i64|
                initialize_outcome(old(self)@, user@, now as int) == Ok::<
                    Map<Seq<u8>, CounterView>,
                    LedgerError,
                >(final(self)@),
            r is Err ==> final(self)@ == old(self)@,
            match initialize_refusal(old(self)@, user@) {
                Some(e) => r == Err::<(), LedgerError>(e),
                None => r is Ok || r == Err::<(), LedgerError>(LedgerError::ClockUnavailable),
            },
    {
        let location = match derive_counter_location(user) {
            Some(location) => location,
            None => {
                return Err(LedgerError::NoLocation);
            },
        };
        if self.position(&location).is_some() {
            return Err(LedgerError::LocationOccupied);
        }
        let mut ctx = Initialize { counter: Counter::zeroed(), user: *user };
        match initialize(&mut ctx) {
            Err(_) => Err(LedgerError::ClockUnavailable),
            Ok(()) => {
                let account = Self::allocate(location, &ctx.counter);
                proof {
                    lemma_records_push(self.accounts@, account);
                    let now = choose|now: i64|
                        ctx.counter@ == CounterView::created(user@, now as int);
                    assert(initialize_outcome(old(self)@, user@, now as int) == Ok::<
                        Map<Seq<u8>, CounterView>,
                        LedgerError,
                    >(old(self)@.insert(location@, ctx.counter@)));
                }
                self.accounts.push(account);
                Ok(())
            },
        }
    }

    /// Adds one to the record of `user`, where it exists, `user` owns it and
    /// the additions fit.
    pub fn increment(&mut self, user: &Identity) -> (r: Result<(), LedgerError>)
        requires
            old(self).wf(),
        ensures
            final(self).wf(),
            r == verdict(increment_outcome(old(self)@, user@)),
            final(self)@ == settled(old(self)@, increment_outcome(old(self)@, user@)),
    {
        let location = match derive_counter_location(user) {
            Some(location) => location,
            None => {
                return Err(LedgerError::NoLocation);
            },
        };
        let found = match self.position(&location) {
            Some(i) => match load(self.accounts[i].data.as_slice()) {
                Some(counter) => Some((i, counter)),
                None => None,
            },
            None => None,
        };
        let (i, counter) = match found {
            Some(pair) => pair,
            None => {
                return Err(LedgerError::RecordNotFound);
            },
        };
        let mut ctx = Increment { counter, user: *user };
        match increment(&mut ctx) {
            Err(e) => Err(LedgerError::Counter(e)),
            Ok(()) => {
                self.persist(i, &ctx.counter);
                Ok(())
            },
        }
    }

    /// Sets the record of `user` back to zero, where it exists and `user`
    /// owns it.
    pub fn reset(&mut self, user: &Identity) -> (r: Result<(), LedgerError>)
        requires
            old(self).wf(),
        ensures
            final(self).wf(),
            r == verdict(reset_outcome(old(self)@, user@)),
            final(self)@ == settled(old(self)@, reset_outcome(old(self)@, user@)),
    {
        let location = match derive_counter_location(user) {
            Some(location) => location,
            None => {
                return Err(LedgerError::NoLocation);
            },
        };
        let found = match self.position(&location) {
            Some(i) => match load(self.accounts[i].data.as_slice()) {
                Some(counter) => Some((i, counter)),
                None => None,
            },
            None => None,
        };
        let (i, counter) = match found {
            Some(pair) => pair,
            None => {
                return Err(LedgerError::RecordNotFound);
            },
        };
        let mut ctx = Reset { counter, user: *user };
        match reset(&mut ctx) {
            Err(e) => Err(LedgerError::Counter(e)),
            Ok(()) => {
                self.persist(i, &ctx.counter);
                Ok(())
            },
        }
    }
}

} // verus!
