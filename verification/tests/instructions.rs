use counter_dapp::{
    increment, initialize, initialize_at, reset, ClockUnavailable, Counter, CounterError,
    Identity, Increment, Initialize, Reset,
};

fn alice() -> Identity {
    Identity::new([1u8; 32])
}

fn bob() -> Identity {
    Identity::new([2u8; 32])
}

fn record(owner: Identity, count: u64, total_increments: u64) -> Counter {
    Counter { owner, count, total_increments, created_at: 1_700_000_000 }
}

#[test]
fn initialize_at_fills_every_field() {
    let stale = Counter { owner: bob(), count: 9, total_increments: 11, created_at: -3 };
    let mut ctx = Initialize { counter: stale, user: alice() };
    initialize_at(&mut ctx, 1_700_000_123);
    assert_eq!(
        ctx.counter,
        Counter { owner: alice(), count: 0, total_increments: 0, created_at: 1_700_000_123 }
    );
    assert_eq!(ctx.user, alice());
}

#[test]
fn initialize_at_keeps_a_negative_time() {
    let mut ctx = Initialize { counter: Counter::zeroed(), user: bob() };
    initialize_at(&mut ctx, i64::MIN);
    assert_eq!(ctx.counter.created_at, i64::MIN);
    assert_eq!(ctx.counter.owner, bob());
}

#[test]
fn initialize_reads_the_clock_or_changes_nothing() {
    let before = Counter { owner: bob(), count: 9, total_increments: 11, created_at: -3 };
    let mut ctx = Initialize { counter: before, user: alice() };
    match initialize(&mut ctx) {
        Ok(()) => {
            assert_eq!(ctx.counter.owner, alice());
            assert_eq!(ctx.counter.count, 0);
            assert_eq!(ctx.counter.total_increments, 0);
        }
        Err(e) => {
            assert_eq!(e, ClockUnavailable);
            assert_eq!(ctx.counter, before);
        }
    }
    assert_eq!(ctx.user, alice());
}

#[test]
fn zeroed_record_is_all_zero() {
    let c = Counter::zeroed();
    assert_eq!(c.owner.to_bytes(), [0u8; 32]);
    assert_eq!((c.count, c.total_increments, c.created_at), (0, 0, 0));
}

#[test]
fn increment_adds_one_to_both_counts() {
    let mut ctx = Increment { counter: record(alice(), 5, 9), user: alice() };
    assert_eq!(increment(&mut ctx), Ok(()));
    assert_eq!(ctx.counter, record(alice(), 6, 10));
    assert_eq!(ctx.user, alice());
}

#[test]
fn increment_by_a_stranger_is_unauthorized() {
    let before = record(alice(), 5, 9);
    let mut ctx = Increment { counter: before, user: bob() };
    assert_eq!(increment(&mut ctx), Err(CounterError::Unauthorized));
    assert_eq!(ctx.counter, before);
    assert_eq!(ctx.user, bob());
}

#[test]
fn reset_by_a_stranger_is_unauthorized() {
    let before = record(alice(), 5, 9);
    let mut ctx = Reset { counter: before, user: bob() };
    assert_eq!(reset(&mut ctx), Err(CounterError::Unauthorized));
    assert_eq!(ctx.counter, before);
}

#[test]
fn a_stranger_differing_in_the_last_byte_is_unauthorized() {
    let mut bytes = [1u8; 32];
    bytes[31] = 0;
    let before = record(alice(), 0, 0);
    let mut ctx = Increment { counter: before, user: Identity::new(bytes) };
    assert_eq!(increment(&mut ctx), Err(CounterError::Unauthorized));
    assert_eq!(ctx.counter, before);
}

#[test]
fn unauthorized_comes_before_overflow() {
    let before = record(alice(), u64::MAX, u64::MAX);
    let mut ctx = Increment { counter: before, user: bob() };
    assert_eq!(increment(&mut ctx), Err(CounterError::Unauthorized));
    assert_eq!(ctx.counter, before);
}

#[test]
fn increment_at_the_largest_count_overflows_every_time() {
    let before = record(alice(), u64::MAX, u64::MAX);
    let mut ctx = Increment { counter: before, user: alice() };
    for _ in 0..3 {
        assert_eq!(increment(&mut ctx), Err(CounterError::Overflow));
        assert_eq!(ctx.counter, before);
    }
}

#[test]
fn increment_just_below_the_largest_count_succeeds() {
    let mut ctx = Increment { counter: record(alice(), u64::MAX - 1, u64::MAX - 1), user: alice() };
    assert_eq!(increment(&mut ctx), Ok(()));
    assert_eq!(ctx.counter, record(alice(), u64::MAX, u64::MAX));
}

#[test]
fn increment_overflows_on_the_total_alone() {
    let before = record(alice(), 3, u64::MAX);
    let mut ctx = Increment { counter: before, user: alice() };
    assert_eq!(increment(&mut ctx), Err(CounterError::Overflow));
    assert_eq!(ctx.counter, before);
}

#[test]
fn overflow_outlasts_a_reset() {
    let mut r = Reset { counter: record(alice(), u64::MAX, u64::MAX), user: alice() };
    assert_eq!(reset(&mut r), Ok(()));
    assert_eq!(r.counter, record(alice(), 0, u64::MAX));
    let mut i = Increment { counter: r.counter, user: alice() };
    assert_eq!(increment(&mut i), Err(CounterError::Overflow));
    assert_eq!(i.counter, record(alice(), 0, u64::MAX));
}

#[test]
fn reset_zeroes_the_count_and_keeps_the_total() {
    let mut ctx = Reset { counter: record(alice(), 5, 9), user: alice() };
    assert_eq!(reset(&mut ctx), Ok(()));
    assert_eq!(ctx.counter, record(alice(), 0, 9));
}

#[test]
fn reset_at_zero_changes_nothing() {
    let before = record(alice(), 0, 9);
    let mut ctx = Reset { counter: before, user: alice() };
    assert_eq!(reset(&mut ctx), Ok(()));
    assert_eq!(ctx.counter, before);
    assert_eq!(reset(&mut ctx), Ok(()));
    assert_eq!(ctx.counter, before);
}

#[test]
fn totals_count_the_increments_and_resets_only_zero_the_count() {
    let mut counter = Counter::zeroed();
    let mut init = Initialize { counter, user: alice() };
    initialize_at(&mut init, 42);
    counter = init.counter;
    let mut successes = 0u64;
    let mut since_reset = 0u64;
    for step in 0..20u32 {
        if step % 7 == 6 {
            let mut ctx = Reset { counter, user: alice() };
            assert_eq!(reset(&mut ctx), Ok(()));
            counter = ctx.counter;
            since_reset = 0;
        } else {
            let mut ctx = Increment { counter, user: alice() };
            assert_eq!(increment(&mut ctx), Ok(()));
            counter = ctx.counter;
            successes += 1;
            since_reset += 1;
        }
        assert_eq!(counter.total_increments, successes);
        assert_eq!(counter.count, since_reset);
        assert_eq!(counter.owner, alice());
        assert_eq!(counter.created_at, 42);
    }
    assert_eq!(counter.total_increments, 18);
    assert_eq!(counter.count, 6);
}

#[test]
fn without_a_reset_count_and_total_agree() {
    let mut counter = Counter { owner: alice(), count: 0, total_increments: 0, created_at: 0 };
    for n in 1..=10u64 {
        let mut ctx = Increment { counter, user: alice() };
        assert_eq!(increment(&mut ctx), Ok(()));
        counter = ctx.counter;
        assert_eq!(counter.count, n);
        assert_eq!(counter.total_increments, n);
    }
}

#[test]
fn error_messages() {
    assert_eq!(
        CounterError::Unauthorized.message(),
        "You are not authorized to perform this action"
    );
    assert_eq!(CounterError::Overflow.message(), "Counter overflow");
}

#[test]
fn identities_compare_by_their_bytes() {
    assert_eq!(alice(), Identity::new([1u8; 32]));
    assert_ne!(alice(), bob());
    let mut bytes = [1u8; 32];
    bytes[0] = 3;
    assert_ne!(alice(), Identity::new(bytes));
    assert_eq!(Identity::new(bytes).to_bytes(), bytes);
}
