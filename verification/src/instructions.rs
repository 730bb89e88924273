//! The three operations on a record, each on the accounts it was handed.

use vstd::prelude::*;

use crate::clock::unix_timestamp;
use crate::identity::Identity;
use crate::state::{Counter, CounterError, CounterView};

verus! {

/// The accounts of `initialize`: the freshly allocated record and the caller.
#[derive(Clone, Copy, Debug)]
pub struct Initialize {
    /// The record to fill in.
    pub counter: Counter,
    /// The authenticated caller, who becomes the owner.
    pub user: Identity,
}

/// The accounts of `increment`: the record loaded from storage and the caller.
#[derive(Clone, Copy, Debug)]
pub struct Increment {
    /// The record found at the caller's location.
    pub counter: Counter,
    /// The authenticated caller.
    pub user: Identity,
}

/// The accounts of `reset`: the record loaded from storage and the caller.
#[derive(Clone, Copy, Debug)]
pub struct Reset {
    /// The record found at the caller's location.
    pub counter: Counter,
    /// The authenticated caller.
    pub user: Identity,
}

/// The host's clock could not be read.
#[derive(Clone, Copy, Debug, PartialEq, Eq, Structural)]
pub struct ClockUnavailable;

/// Fills in the record for its new owner, the caller, at the time `now`:
/// both counts start at zero.
pub fn initialize_at(ctx: &mut Initialize, now: i64)
    ensures
        final(ctx).counter@ == CounterView::created(old(ctx).user@, now as int),
        final(ctx).counter.owner == old(ctx).user,
        final(ctx).user == old(ctx).user,
{
    ctx.counter.owner = ctx.user;
    ctx.counter.count = 0;
    ctx.counter.total_increments = 0;
    ctx.counter.created_at = now;
}

/// Fills in the record for its new owner, the caller, at the time the host's
/// clock gives. Where the clock cannot be read nothing changes.
pub fn initialize(ctx: &mut Initialize) -> (r: Result<(), ClockUnavailable>)
    ensures
        final(ctx).user == old(ctx).user,
        r is Ok ==> exists|now: i64|
            final(ctx).counter@ == CounterView::created(old(ctx).user@, now as int),
        r is Ok ==> final(ctx).counter.owner == old(ctx).user,
        r is Err ==> *final(ctx) == *old(ctx),
{
    match unix_timestamp() {
        Ok(now) => {
            initialize_at(ctx, now);
            Ok(())
        },
        Err(_) => Err(ClockUnavailable),
    }
}

/// Adds one to the current value and to the lifetime total, for the owner
/// only and only where both additions fit. A refused call changes nothing.
pub fn increment(ctx: &mut Increment) -> (r: Result<(), CounterError>)
    ensures
        final(ctx).user == old(ctx).user,
        match old(ctx).counter@.increment(old(ctx).user@) {
            Ok(next) => r is Ok && final(ctx).counter@ == next,
            Err(e) => r == Err::<(), CounterError>(e) && *final(ctx) == *old(ctx),
        },
        final(ctx).counter.owner == old(ctx).counter.owner,
        final(ctx).counter.created_at == old(ctx).counter.created_at,
        final(ctx).counter.total_increments >= old(ctx).counter.total_increments,
        old(ctx).counter.owner@ != old(ctx).user@ ==> r == Err::<(), CounterError>(
            CounterError::Unauthorized,
        ),
        old(ctx).counter.owner@ == old(ctx).user@ && (old(ctx).counter.count == u64::MAX || old(
            ctx,
        ).counter.total_increments == u64::MAX) ==> r == Err::<(), CounterError>(
            CounterError::Overflow,
        ),
{
    if ctx.counter.owner != ctx.user {
        return Err(CounterError::Unauthorized);
    }
    let count = match ctx.counter.count.checked_add(1) {
        Some(n) => n,
        None => {
            return Err(CounterError::Overflow);
        },
    };
    let total = match ctx.counter.total_increments.checked_add(1) {
        Some(n) => n,
        None => {
            return Err(CounterError::Overflow);
        },
    };
    ctx.counter.count = count;
    ctx.counter.total_increments = total;
    Ok(())
}

/// Sets the current value to zero, for the owner only. The lifetime total
/// stays. A refused call changes nothing.
pub fn reset(ctx: &mut Reset) -> (r: Result<(), CounterError>)
    ensures
        final(ctx).user == old(ctx).user,
        match old(ctx).counter@.reset(old(ctx).user@) {
            Ok(next) => r is Ok && final(ctx).counter@ == next,
            Err(e) => r == Err::<(), CounterError>(e) && *final(ctx) == *old(ctx),
        },
        final(ctx).counter.owner == old(ctx).counter.owner,
        final(ctx).counter.created_at == old(ctx).counter.created_at,
        final(ctx).counter.total_increments == old(ctx).counter.total_increments,
        old(ctx).counter.owner@ != old(ctx).user@ ==> r == Err::<(), CounterError>(
            CounterError::Unauthorized,
        ),
        old(ctx).counter.owner@ == old(ctx).user@ && old(ctx).counter.count == 0 ==> r is Ok
            && final(ctx).counter == old(ctx).counter,
{
    if ctx.counter.owner != ctx.user {
        return Err(CounterError::Unauthorized);
    }
    ctx.counter.count = 0;
    Ok(())
}

} // verus!
