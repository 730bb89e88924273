//! Where a record lives: the storage location derived from its owner.

use anchor_lang::prelude::Pubkey;
use vstd::prelude::*;

use crate::identity::Identity;

verus! {

/// The namespace tag under which counter records are addressed: the bytes of
/// the word "counter".
pub const COUNTER_SEED: [u8; 7] = [0x63, 0x6f, 0x75, 0x6e, 0x74, 0x65, 0x72];

/// The identity of this program, which scopes every location it derives.
pub const PROGRAM_ID: [u8; 32] = [
    0xeb, 0xb6, 0x68, 0xdc, 0x4e, 0x42, 0x8c, 0xaa, 0xb3, 0xfe, 0x32, 0xaa, 0xea, 0x93, 0x8d, 0xad,
    0x18, 0x35, 0x76, 0x50, 0x16, 0x16, 0xa1, 0xf2, 0x60, 0xb6, 0x36, 0x79, 0x7c, 0x99, 0x6d, 0x90,
];

/// What `Pubkey::try_find_program_address` of `anchor_lang` yields for a list
/// of seeds and a program identity: the derived address with the bump seed
/// that produced it, or `None` where the search finds no address.
pub uninterp spec fn program_address(seeds: Seq<Seq<u8>>, program_id: Seq<u8>) -> Option<(Seq<u8>, u8)>;

/// The storage location of the record that belongs to `owner`, where one can
/// be derived: the address found for the seeds `COUNTER_SEED` and the owner's
/// bytes under `PROGRAM_ID`.
pub open spec fn counter_location(owner: Seq<u8>) -> Option<Seq<u8>> {
    match program_address(seq![COUNTER_SEED@, owner], PROGRAM_ID@) {
        Some((address, _)) => Some(address),
        None => None,
    }
}

/// Calls `anchor_lang::prelude::Pubkey::try_find_program_address` with the
/// two seeds `first` and `second`, in this order, and the program identity
/// `program_id`.
///
/// Trusted: the result is taken to be `program_address` of these arguments.
/// The search hashes its arguments and tests the hash against the ed25519
/// curve, so it depends on nothing else. Nothing more is claimed of it.
#[verifier::external_body]
fn find_program_address(first: &[u8], second: &[u8], program_id: &[u8; 32]) -> (r: Option<([u8; 32], u8)>)
    ensures
        program_address(seq![first@, second@], program_id@) == match r {
            Some((address, bump)) => Some((address@, bump)),
            None => None,
        },
{
    match Pubkey::try_find_program_address(&[first, second], &Pubkey::new_from_array(*program_id)) {
        Some((address, bump)) => Some((address.to_bytes(), bump)),
        None => None,
    }
}

/// Derives the storage location of the record that belongs to `owner`.
pub fn derive_counter_location(owner: &Identity) -> (r: Option<Identity>)
    ensures
        match r {
            Some(location) => counter_location(owner@) == Some(location@),
            None => counter_location(owner@) is None,
        },
{
    let seed = COUNTER_SEED;
    let program = PROGRAM_ID;
    match find_program_address(seed.as_slice(), owner.bytes.as_slice(), &program) {
        Some((address, _)) => Some(Identity::new(address)),
        None => None,
    }
}

} // verus!
