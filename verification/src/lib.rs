//! A counter per owner, kept in ledger accounts, with its rules verified.
//!
//! Every owner has at most one record, at a storage location derived from
//! the tag `"counter"` and the owner's identity. A record is created once by
//! `initialize`, counted up by `increment` and set back to zero by `reset`;
//! only its owner may change it, and no count ever wraps around.
//!
//! - [`identity`]: the 32-byte identities of callers, owners and locations.
//! - [`state`]: the record, its mathematical content and its guarded changes.
//! - [`instructions`]: the three operations on the accounts handed to them.
//! - [`address`]: the location of a record, derived from its owner.
//! - [`clock`]: the time of the host.
//! - [`layout`]: the bytes of a record in its account.
//! - [`ledger`]: the store of all records, and the operations as a caller
//!   invokes them.
//! - [`laws`]: what holds of the operations taken together.

pub mod address;
pub mod clock;
pub mod identity;
pub mod instructions;
pub mod laws;
pub mod layout;
pub mod ledger;
pub mod state;

pub use identity::Identity;
pub use instructions::{
    increment, initialize, initialize_at, reset, ClockUnavailable, Increment, Initialize, Reset,
};
pub use ledger::{Ledger, LedgerError};
pub use state::{Counter, CounterError, CounterView};
