//! What holds of the operations taken together.

use vstd::prelude::*;

use crate::address::counter_location;
use crate::ledger::{
    increment_outcome, initialize_outcome, placed_by_owner, record_of, reset_outcome, settled,
    verdict, LedgerError,
};
use crate::state::{CounterError, CounterView};

verus! {

/// A change that an owner can ask for once the record exists.
pub enum Operation {
    Increment,
    Reset,
}

/// What one operation by `caller` makes of a record.
pub open spec fn apply(record: CounterView, op: Operation, caller: Seq<u8>) -> Result<
    CounterView,
    CounterError,
> {
    match op {
        Operation::Increment => record.increment(caller),
        Operation::Reset => record.reset(caller),
    }
}

/// What the operations `ops` by `caller`, in order, make of a record. The
/// first one that is refused ends the run with its error.
pub open spec fn run(record: CounterView, ops: Seq<Operation>, caller: Seq<u8>) -> Result<
    CounterView,
    CounterError,
>
    decreases ops.len(),
{
    if ops.len() == 0 {
        Ok(record)
    } else {
        match run(record, ops.drop_last(), caller) {
            Ok(earlier) => apply(earlier, ops.last(), caller),
            Err(e) => Err(e),
        }
    }
}

/// How many of `ops` are increments.
pub open spec fn increments(ops: Seq<Operation>) -> nat
    decreases ops.len(),
{
    if ops.len() == 0 {
        0
    } else {
        increments(ops.drop_last()) + match ops.last() {
            Operation::Increment => 1nat,
            Operation::Reset => 0nat,
        }
    }
}

/// How many of `ops` are resets.
pub open spec fn resets(ops: Seq<Operation>) -> nat
    decreases ops.len(),
{
    if ops.len() == 0 {
        0
    } else {
        resets(ops.drop_last()) + match ops.last() {
            Operation::Increment => 0nat,
            Operation::Reset => 1nat,
        }
    }
}

/// How many increments follow the last reset in `ops`: all of them where
/// `ops` holds no reset.
pub open spec fn increments_since_reset(ops: Seq<Operation>) -> nat
    decreases ops.len(),
{
    if ops.len() == 0 {
        0
    } else {
        match ops.last() {
            Operation::Increment => increments_since_reset(ops.drop_last()) + 1,
            Operation::Reset => 0,
        }
    }
}

/// Once `initialize` has been called for an owner, whose location can be
/// derived, every further call for that owner fails because the location is
/// occupied, and changes nothing. Where the first call succeeded, the record
/// it created is the owner's record.
pub proof fn lemma_initialize_once(
    records: Map<Seq<u8>, CounterView>,
    owner: Seq<u8>,
    first: int,
    second: int,
)
    requires
        counter_location(owner) is Some,
    ensures
        ({
            let created = settled(records, initialize_outcome(records, owner, first));
            let again = initialize_outcome(created, owner, second);
            &&& verdict(again) == Err::<(), LedgerError>(LedgerError::LocationOccupied)
            &&& settled(created, again) == created
            &&& initialize_outcome(records, owner, first) is Ok ==> record_of(created, owner)
                == Some(CounterView::created(owner, first))
        }),
{
}

/// From creation on, as long as every operation of the owner succeeds: the
/// lifetime total is the number of increments, the current value is the
/// number of increments since the last reset, and owner and creation time
/// stay. The current value is the total less the number of resets exactly
/// when as many increments precede the last reset as there are resets.
pub proof fn lemma_counts(owner: Seq<u8>, now: int, ops: Seq<Operation>)
    requires
        run(CounterView::created(owner, now), ops, owner) is Ok,
    ensures
        ({
            let record = run(CounterView::created(owner, now), ops, owner)->Ok_0;
            &&& record.total_increments == increments(ops)
            &&& record.count == increments_since_reset(ops)
            &&& record.owner == owner
            &&& record.created_at == now
            &&& record.wf()
            &&& (record.count == record.total_increments - resets(ops) <==> increments(ops)
                - increments_since_reset(ops) == resets(ops))
        }),
    decreases ops.len(),
{
    if ops.len() > 0 {
        lemma_counts(owner, now, ops.drop_last());
    }
}

/// A record that has reached the largest value stays there for good: its
/// owner's increments are refused, also after a reset.
pub proof fn lemma_overflow_is_permanent(record: CounterView, ops: Seq<Operation>)
    requires
        record.wf(),
        record.count == CounterView::limit(),
        run(record, ops, record.owner) is Ok,
    ensures
        run(record, ops, record.owner)->Ok_0.increment(record.owner) == Err::<
            CounterView,
            CounterError,
        >(CounterError::Overflow),
        increments(ops) == 0,
    decreases ops.len(),
{
    if ops.len() > 0 {
        lemma_overflow_is_permanent(record, ops.drop_last());
    }
}

/// Resetting twice is resetting once, and a reset of a record that stands at
/// zero changes nothing.
pub proof fn lemma_reset_idempotent(record: CounterView, caller: Seq<u8>)
    requires
        record.reset(caller) is Ok,
    ensures
        record.reset(caller)->Ok_0.reset(caller) == record.reset(caller),
        record.count == 0 ==> record.reset(caller) == Ok::<CounterView, CounterError>(record),
{
}

/// Whoever is not the owner changes nothing: both operations are refused as
/// unauthorized.
pub proof fn lemma_only_the_owner(record: CounterView, caller: Seq<u8>)
    requires
        caller != record.owner,
    ensures
        record.increment(caller) == Err::<CounterView, CounterError>(CounterError::Unauthorized),
        record.reset(caller) == Err::<CounterView, CounterError>(CounterError::Unauthorized),
{
}

/// Where every record lies at its owner's location, no owner has two.
pub proof fn lemma_one_record_per_owner(
    records: Map<Seq<u8>, CounterView>,
    first: Seq<u8>,
    second: Seq<u8>,
)
    requires
        placed_by_owner(records),
        records.contains_key(first),
        records.contains_key(second),
        records[first].owner == records[second].owner,
    ensures
        first == second,
        record_of(records, records[first].owner) == Some(records[first]),
{
}

/// The operations of one owner leave the records of all others alone, and
/// keep every record at its owner's location.
pub proof fn lemma_owners_are_independent(
    records: Map<Seq<u8>, CounterView>,
    user: Seq<u8>,
    other: Seq<u8>,
    now: int,
)
    requires
        placed_by_owner(records),
        counter_location(user) != counter_location(other),
    ensures
        record_of(settled(records, initialize_outcome(records, user, now)), other) == record_of(
            records,
            other,
        ),
        record_of(settled(records, increment_outcome(records, user)), other) == record_of(
            records,
            other,
        ),
        record_of(settled(records, reset_outcome(records, user)), other) == record_of(
            records,
            other,
        ),
        placed_by_owner(settled(records, initialize_outcome(records, user, now))),
        placed_by_owner(settled(records, increment_outcome(records, user))),
        placed_by_owner(settled(records, reset_outcome(records, user))),
{
}

} // verus!
