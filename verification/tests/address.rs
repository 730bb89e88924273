use std::str::FromStr;

use anchor_lang::prelude::Pubkey;
use counter_dapp::address::{derive_counter_location, COUNTER_SEED, PROGRAM_ID};
use counter_dapp::Identity;

#[test]
fn the_seed_is_the_word_counter() {
    assert_eq!(&COUNTER_SEED[..], "counter".as_bytes());
}

#[test]
fn the_program_identity_in_base58() {
    let id = Pubkey::from_str("Gs88iGv4WFEC8zfTBRnpDqP895o61BKzyFbdWNtHtFuy").unwrap();
    assert_eq!(id.to_bytes(), PROGRAM_ID);
}

#[test]
fn the_location_with_the_highest_bump() {
    let location = derive_counter_location(&Identity::new([1u8; 32]));
    assert_eq!(
        location,
        Some(Identity::new([
            236, 171, 19, 51, 150, 6, 66, 214, 206, 238, 18, 203, 99, 60, 28, 77, 126, 53, 253,
            154, 6, 104, 174, 8, 40, 214, 181, 58, 22, 20, 37, 113,
        ]))
    );
}

#[test]
fn the_location_with_a_lower_bump() {
    let location = derive_counter_location(&Identity::new([7u8; 32]));
    assert_eq!(
        location,
        Some(Identity::new([
            160, 44, 208, 43, 31, 178, 251, 55, 33, 242, 174, 252, 93, 231, 196, 189, 87, 32, 130,
            36, 179, 153, 111, 60, 66, 58, 27, 155, 86, 75, 89, 185,
        ]))
    );
}

#[test]
fn the_location_is_the_program_address_of_seed_and_owner() {
    let program = Pubkey::new_from_array(PROGRAM_ID);
    for k in 0..40u8 {
        let owner = [k; 32];
        let (expected, _) = Pubkey::find_program_address(&[&COUNTER_SEED[..], &owner[..]], &program);
        let location = derive_counter_location(&Identity::new(owner)).unwrap();
        assert_eq!(location.to_bytes(), expected.to_bytes());
        assert_ne!(location.to_bytes(), owner);
    }
}

#[test]
fn the_location_depends_on_the_owner_alone() {
    let owner = Identity::new([9u8; 32]);
    assert_eq!(derive_counter_location(&owner), derive_counter_location(&owner));
    assert_ne!(
        derive_counter_location(&owner),
        derive_counter_location(&Identity::new([10u8; 32]))
    );
}
