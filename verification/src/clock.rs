//! The host's clock.

use anchor_lang::prelude::{Clock, ProgramError, SolanaSysvar};
use vstd::prelude::*;

verus! {

/// `anchor_lang::prelude::ProgramError`, carried through unread.
#[verifier::external_type_specification]
#[verifier::external_body]
pub struct ExProgramError(ProgramError);

/// Calls `anchor_lang::prelude::Clock::get` and hands out the
/// `unix_timestamp` of the clock it returns, or the error it returns.
///
/// Trusted, and nothing is claimed of the result: the time is whatever the
/// host says, and a host without a clock gives an error.
#[verifier::external_body]
pub(crate) fn unix_timestamp() -> (r: Result<i64, ProgramError>) {
    match Clock::get() {
        Ok(clock) => Ok(clock.unix_timestamp),
        Err(e) => Err(e),
    }
}

} // verus!
