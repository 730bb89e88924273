use anchor_lang::prelude::borsh;
use counter_dapp::layout::{encode, load, store, ACCOUNT_LEN, HEADER_LEN, RECORD_LEN};
use counter_dapp::{Counter, Identity};

fn sample() -> Counter {
    Counter {
        owner: Identity::new([0xabu8; 32]),
        count: 0x0102_0304_0506_0708,
        total_increments: 3,
        created_at: -2,
    }
}

#[test]
fn sizes() {
    assert_eq!(HEADER_LEN, 8);
    assert_eq!(RECORD_LEN, 32 + 8 + 8 + 8);
    assert_eq!(ACCOUNT_LEN, HEADER_LEN + RECORD_LEN);
}

#[test]
fn encode_lays_out_owner_count_total_time() {
    let bytes = encode(&sample());
    let mut expected = vec![0xabu8; 32];
    expected.extend_from_slice(&[8, 7, 6, 5, 4, 3, 2, 1]);
    expected.extend_from_slice(&[3, 0, 0, 0, 0, 0, 0, 0]);
    expected.extend_from_slice(&[0xfe, 0xff, 0xff, 0xff, 0xff, 0xff, 0xff, 0xff]);
    assert_eq!(bytes, expected);
}

#[test]
fn encode_at_the_limits() {
    let record = Counter {
        owner: Identity::new([0u8; 32]),
        count: u64::MAX,
        total_increments: 0,
        created_at: i64::MIN,
    };
    let bytes = encode(&record);
    assert_eq!(&bytes[32..40], &[0xff; 8]);
    assert_eq!(&bytes[40..48], &[0; 8]);
    assert_eq!(&bytes[48..56], &[0, 0, 0, 0, 0, 0, 0, 0x80]);
    let record = Counter { created_at: i64::MAX, ..record };
    assert_eq!(&encode(&record)[48..56], &[0xff, 0xff, 0xff, 0xff, 0xff, 0xff, 0xff, 0x7f]);
}

#[test]
fn encode_agrees_with_borsh() {
    let mut owner = [0u8; 32];
    for (i, b) in owner.iter_mut().enumerate() {
        *b = (i * 7 + 1) as u8;
    }
    for (count, total, created) in [
        (0u64, 0u64, 0i64),
        (1, 2, 3),
        (u64::MAX, u64::MAX, i64::MIN),
        (0x1234_5678_9abc_def0, 255, -1_700_000_000),
        (256, 65_536, i64::MAX),
    ] {
        let record = Counter {
            owner: Identity::new(owner),
            count,
            total_increments: total,
            created_at: created,
        };
        let expected = borsh::to_vec(&(owner, count, total, created)).unwrap();
        assert_eq!(encode(&record), expected);
    }
}

#[test]
fn store_then_load_gives_the_record_back() {
    let mut data = vec![0x5au8; ACCOUNT_LEN];
    assert!(store(&mut data, &sample()));
    assert_eq!(load(&data), Some(sample()));
    assert_eq!(&data[..HEADER_LEN], &[0x5a; 8]);
    assert_eq!(&data[HEADER_LEN..], &encode(&sample())[..]);
}

#[test]
fn store_leaves_header_and_tail_alone() {
    let mut data: Vec<u8> = (0..80u8).collect();
    assert!(store(&mut data, &sample()));
    assert_eq!(data.len(), 80);
    assert_eq!(&data[..8], &[0, 1, 2, 3, 4, 5, 6, 7]);
    assert_eq!(&data[64..], &(64..80u8).collect::<Vec<u8>>()[..]);
    assert_eq!(load(&data), Some(sample()));
}

#[test]
fn a_short_account_holds_no_record() {
    let mut data = vec![7u8; ACCOUNT_LEN - 1];
    assert!(!store(&mut data, &sample()));
    assert_eq!(data, vec![7u8; ACCOUNT_LEN - 1]);
    assert_eq!(load(&data), None);
    assert_eq!(load(&[]), None);
}

#[test]
fn load_reads_behind_the_header() {
    let mut data = vec![0u8; ACCOUNT_LEN];
    for b in data[..8].iter_mut() {
        *b = 0xee;
    }
    for b in data[8..40].iter_mut() {
        *b = 9;
    }
    data[40] = 1;
    data[41] = 1;
    data[48] = 5;
    data[63] = 0x80;
    assert_eq!(
        load(&data),
        Some(Counter {
            owner: Identity::new([9u8; 32]),
            count: 257,
            total_increments: 5,
            created_at: i64::MIN,
        })
    );
}
