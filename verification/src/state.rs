//! The counter record and the rules that guard its changes.

use vstd::prelude::*;

use crate::identity::Identity;

verus! {

/// Why a change to a record was refused.
#[derive(Clone, Copy, Debug, PartialEq, Eq, Structural)]
pub enum CounterError {
    /// The caller is not the owner of the record.
    Unauthorized,
    /// Adding one would exceed the largest value a counter can hold.
    Overflow,
}

/// The record kept for one owner.
#[derive(Clone, Copy, Debug, PartialEq, Eq)]
pub struct Counter {
    /// Who created the record. Never changes.
    pub owner: Identity,
    /// The current value.
    pub count: u64,
    /// How many increments succeeded over the record's lifetime.
    pub total_increments: u64,
    /// Seconds since the epoch at creation. Never changes.
    pub created_at: i64,
}

/// The mathematical content of a record.
pub struct CounterView {
    pub owner: Seq<u8>,
    pub count: nat,
    pub total_increments: nat,
    pub created_at: int,
}

impl View for Counter {
    type V = CounterView;

    open spec fn view(&self) -> CounterView {
        CounterView {
            owner: self.owner@,
            count: self.count as nat,
            total_increments: self.total_increments as nat,
            created_at: self.created_at as int,
        }
    }
}

impl CounterView {
    /// The largest value that `count` and `total_increments` can hold.
    pub open spec fn limit() -> nat {
        0xffff_ffff_ffff_ffff
    }

    /// The current value never exceeds the lifetime total, and both fit.
    pub open spec fn wf(self) -> bool {
        &&& self.count <= self.total_increments
        &&& self.total_increments <= Self::limit()
    }

    /// The record as `initialize` leaves it for `owner` at time `now`.
    pub open spec fn created(owner: Seq<u8>, now: int) -> CounterView {
        CounterView { owner, count: 0, total_increments: 0, created_at: now }
    }

    /// What `increment` by `caller` makes of this record.
    pub open spec fn increment(self, caller: Seq<u8>) -> Result<CounterView, CounterError> {
        if self.owner != caller {
            Err(CounterError::Unauthorized)
        } else if self.count >= Self::limit() || self.total_increments >= Self::limit() {
            Err(CounterError::Overflow)
        } else {
            Ok(
                CounterView {
                    count: self.count + 1,
                    total_increments: self.total_increments + 1,
                    ..self
                },
            )
        }
    }

    /// What `reset` by `caller` makes of this record.
    pub open spec fn reset(self, caller: Seq<u8>) -> Result<CounterView, CounterError> {
        if self.owner != caller {
            Err(CounterError::Unauthorized)
        } else {
            Ok(CounterView { count: 0, ..self })
        }
    }
}

impl Counter {
    /// A freshly allocated record: every byte zero.
    pub fn zeroed() -> (r: Counter)
        ensures
            r.owner.bytes@ == Seq::new(32, |i: int| 0u8),
            r.count == 0,
            r.total_increments == 0,
            r.created_at == 0,
    {
        let r = Counter { owner: Identity::new([0u8; 32]), count: 0, total_increments: 0, created_at: 0 };
        assert(r.owner.bytes@ =~= Seq::new(32, |i: int| 0u8));
        r
    }
}

impl CounterError {
    /// The text shown to a caller for this error.
    pub open spec fn message_text(self) -> Seq<char> {
        match self {
            CounterError::Unauthorized => "You are not authorized to perform this action"@,
            CounterError::Overflow => "Counter overflow"@,
        }
    }

    /// The text shown to a caller for this error.
    pub fn message(&self) -> (r: &'static str)
        ensures
            r@ == self.message_text(),
    {
        match self {
            CounterError::Unauthorized => "You are not authorized to perform this action",
            CounterError::Overflow => "Counter overflow",
        }
    }
}

} // verus!
