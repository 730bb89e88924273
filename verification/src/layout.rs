//! How a record is laid out in the bytes of its account: a header that
//! belongs to the storage layer, then owner, count, total and creation time.

use vstd::prelude::*;

use crate::identity::Identity;
use crate::state::{Counter, CounterView};

verus! {

/// Bytes at the start of an account that belong to the storage layer.
pub const HEADER_LEN: usize = 8;

/// Bytes that a record takes after the header.
pub const RECORD_LEN: usize = 56;

/// Bytes that an account needs to hold a record.
pub const ACCOUNT_LEN: usize = 64;

/// 256 to the power `width`.
pub open spec fn radix(width: nat) -> nat
    decreases width,
{
    if width == 0 {
        1
    } else {
        256 * radix((width - 1) as nat)
    }
}

/// The `width` low bytes of `value`, least significant first.
pub open spec fn le_bytes(value: nat, width: nat) -> Seq<u8>
    decreases width,
{
    if width == 0 {
        Seq::empty()
    } else {
        seq![(value % 256) as u8] + le_bytes(value / 256, (width - 1) as nat)
    }
}

/// The number that `bytes` spell, least significant first.
pub open spec fn le_value(bytes: Seq<u8>) -> nat
    decreases bytes.len(),
{
    if bytes.len() == 0 {
        0
    } else {
        bytes[0] as nat + 256 * le_value(bytes.skip(1))
    }
}

/// The unsigned 64-bit number with the bits of the signed `x`.
pub open spec fn to_unsigned(x: int) -> nat {
    if x >= 0 {
        x as nat
    } else {
        (x + 0x1_0000_0000_0000_0000) as nat
    }
}

/// The signed 64-bit number with the bits of the unsigned `n`.
pub open spec fn to_signed(n: nat) -> int {
    if n < 0x8000_0000_0000_0000 {
        n as int
    } else {
        n - 0x1_0000_0000_0000_0000
    }
}

/// The bytes of a record: the owner's 32 bytes, then count, lifetime total
/// and creation time in 8 bytes each, least significant byte first.
pub open spec fn record_bytes(record: CounterView) -> Seq<u8> {
    record.owner + le_bytes(record.count, 8) + le_bytes(record.total_increments, 8) + le_bytes(
        to_unsigned(record.created_at),
        8,
    )
}

/// The record that 56 bytes spell.
pub open spec fn record_at(bytes: Seq<u8>) -> CounterView {
    CounterView {
        owner: bytes.subrange(0, 32),
        count: le_value(bytes.subrange(32, 40)),
        total_increments: le_value(bytes.subrange(40, 48)),
        created_at: to_signed(le_value(bytes.subrange(48, 56))),
    }
}

/// Bytes spell a number below the radix of their length.
pub proof fn lemma_le_value_bound(bytes: Seq<u8>)
    ensures
        le_value(bytes) < radix(bytes.len()),
    decreases bytes.len(),
{
    if bytes.len() > 0 {
        lemma_le_value_bound(bytes.skip(1));
    }
}

/// The bytes of a number that fits spell that number.
pub proof fn lemma_le_value_of_bytes(value: nat, width: nat)
    requires
        value < radix(width),
    ensures
        le_bytes(value, width).len() == width,
        le_value(le_bytes(value, width)) == value,
    decreases width,
{
    if width > 0 {
        let rest = le_bytes(value / 256, (width - 1) as nat);
        lemma_le_value_of_bytes(value / 256, (width - 1) as nat);
        assert(le_bytes(value, width).skip(1) =~= rest);
    }
}

/// The number that bytes spell has exactly these bytes.
pub proof fn lemma_le_bytes_of_value(bytes: Seq<u8>)
    ensures
        le_bytes(le_value(bytes), bytes.len()) == bytes,
    decreases bytes.len(),
{
    if bytes.len() > 0 {
        lemma_le_bytes_of_value(bytes.skip(1));
        let value = le_value(bytes);
        assert(value % 256 == bytes[0] as nat);
        assert(value / 256 == le_value(bytes.skip(1)));
        assert(le_bytes(value, bytes.len()) =~= bytes);
    } else {
        assert(le_bytes(le_value(bytes), bytes.len()) =~= bytes);
    }
}

/// The width of `le_bytes`.
pub proof fn lemma_le_bytes_len(value: nat, width: nat)
    ensures
        le_bytes(value, width).len() == width,
    decreases width,
{
    if width > 0 {
        lemma_le_bytes_len(value / 256, (width - 1) as nat);
    }
}

/// Eight bytes hold every unsigned 64-bit number.
pub proof fn lemma_radix_8()
    ensures
        radix(8) == 0x1_0000_0000_0000_0000,
{
    reveal_with_fuel(radix, 9);
}

/// A record read back from its bytes is the record that was written.
pub proof fn lemma_record_round_trip(record: CounterView)
    requires
        record.owner.len() == 32,
        record.count <= CounterView::limit(),
        record.total_increments <= CounterView::limit(),
        -0x8000_0000_0000_0000 <= record.created_at < 0x8000_0000_0000_0000,
    ensures
        record_bytes(record).len() == RECORD_LEN,
        record_at(record_bytes(record)) == record,
{
    lemma_radix_8();
    let count = le_bytes(record.count, 8);
    let total = le_bytes(record.total_increments, 8);
    let created = le_bytes(to_unsigned(record.created_at), 8);
    lemma_le_value_of_bytes(record.count, 8);
    lemma_le_value_of_bytes(record.total_increments, 8);
    lemma_le_value_of_bytes(to_unsigned(record.created_at), 8);
    let bytes = record_bytes(record);
    assert(bytes.subrange(0, 32) =~= record.owner);
    assert(bytes.subrange(32, 40) =~= count);
    assert(bytes.subrange(40, 48) =~= total);
    assert(bytes.subrange(48, 56) =~= created);
}

/// The bytes written for the record that 56 bytes spell are those bytes.
pub proof fn lemma_bytes_round_trip(bytes: Seq<u8>)
    requires
        bytes.len() == RECORD_LEN,
    ensures
        record_bytes(record_at(bytes)) == bytes,
{
    lemma_radix_8();
    let created = le_value(bytes.subrange(48, 56));
    lemma_le_value_bound(bytes.subrange(48, 56));
    lemma_le_bytes_of_value(bytes.subrange(32, 40));
    lemma_le_bytes_of_value(bytes.subrange(40, 48));
    lemma_le_bytes_of_value(bytes.subrange(48, 56));
    assert(to_unsigned(to_signed(created)) == created);
    assert(record_bytes(record_at(bytes)) =~= bytes);
}

/// The unsigned number with the bits of `x`.
fn unsigned_of(x: i64) -> (r: u64)
    ensures
        r as nat == to_unsigned(x as int),
{
    if x >= 0 {
        x as u64
    } else {
        ((x - i64::MIN) as u64) + 0x8000_0000_0000_0000
    }
}

/// The signed number with the bits of `n`.
fn signed_of(n: u64) -> (r: i64)
    ensures
        r as int == to_signed(n as nat),
{
    if n < 0x8000_0000_0000_0000 {
        n as i64
    } else {
        ((n - 0x8000_0000_0000_0000) as i64) + i64::MIN
    }
}

/// Appends the eight bytes of `value`, least significant first.
fn put_u64(out: &mut Vec<u8>, value: u64)
    ensures
        final(out)@ == old(out)@ + le_bytes(value as nat, 8),
{
    let ghost before = out@;
    let mut rest: u64 = value;
    let mut k: usize = 0;
    while k < 8
        invariant
            k <= 8,
            out@ + le_bytes(rest as nat, (8 - k) as nat) == before + le_bytes(value as nat, 8),
        decreases 8 - k,
    {
        let byte: u8 = (rest % 256) as u8;
        proof {
            assert(out@.push(byte) + le_bytes((rest / 256) as nat, (8 - k - 1) as nat) =~= out@
                + le_bytes(rest as nat, (8 - k) as nat));
        }
        out.push(byte);
        rest = rest / 256;
        k += 1;
    }
    assert(out@ + le_bytes(rest as nat, 0) =~= out@);
}

/// The number spelt by the eight bytes of `data` from index `at` on.
fn get_u64(data: &[u8], at: usize) -> (r: u64)
    requires
        at + 8 <= data@.len(),
        at + 8 <= usize::MAX,
    ensures
        r as nat == le_value(data@.subrange(at as int, at + 8)),
{
    let mut acc: u64 = 0;
    let mut k: usize = 8;
    while k > 0
        invariant
            k <= 8,
            at + 8 <= data@.len(),
            at + 8 <= usize::MAX,
            acc as nat == le_value(data@.subrange(at + k, at + 8)),
        decreases k,
    {
        k -= 1;
        proof {
            let tail = data@.subrange(at + k + 1, at + 8);
            lemma_le_value_bound(tail);
            reveal_with_fuel(radix, 9);
            assert(data@.subrange(at + k, at + 8).skip(1) =~= tail);
        }
        acc = acc * 256 + data[at + k] as u64;
    }
    acc
}

/// The bytes of `counter` as they follow the header of its account.
pub fn encode(counter: &Counter) -> (r: Vec<u8>)
    ensures
        r@ == record_bytes(counter@),
        r@.len() == RECORD_LEN,
{
    let mut out: Vec<u8> = Vec::new();
    let mut i: usize = 0;
    while i < 32
        invariant
            i <= 32,
            out@ == counter.owner@.subrange(0, i as int),
        decreases 32 - i,
    {
        out.push(counter.owner.bytes[i]);
        assert(out@ =~= counter.owner@.subrange(0, i + 1));
        i += 1;
    }
    assert(out@ =~= counter.owner@);
    put_u64(&mut out, counter.count);
    put_u64(&mut out, counter.total_increments);
    put_u64(&mut out, unsigned_of(counter.created_at));
    proof {
        lemma_le_bytes_len(counter.count as nat, 8);
        lemma_le_bytes_len(counter.total_increments as nat, 8);
        lemma_le_bytes_len(to_unsigned(counter.created_at as int), 8);
    }
    out
}

/// Reads the record of an account from its bytes, header included. An
/// account too short to hold a record has none.
pub fn load(data: &[u8]) -> (r: Option<Counter>)
    ensures
        match r {
            Some(counter) => data@.len() >= ACCOUNT_LEN && counter@ == record_at(
                data@.subrange(HEADER_LEN as int, ACCOUNT_LEN as int),
            ),
            None => data@.len() < ACCOUNT_LEN,
        },
{
    if data.len() < ACCOUNT_LEN {
        return None;
    }
    let ghost body = data@.subrange(HEADER_LEN as int, ACCOUNT_LEN as int);
    let mut owner = [0u8; 32];
    let mut i: usize = 0;
    while i < 32
        invariant
            i <= 32,
            data@.len() >= ACCOUNT_LEN,
            forall|k: int| 0 <= k < i ==> owner@[k] == data@[HEADER_LEN + k],
        decreases 32 - i,
    {
        owner[i] = data[HEADER_LEN + i];
        i += 1;
    }
    let count = get_u64(data, HEADER_LEN + 32);
    let total_increments = get_u64(data, HEADER_LEN + 40);
    let created_at = signed_of(get_u64(data, HEADER_LEN + 48));
    proof {
        assert(owner@ =~= body.subrange(0, 32));
        assert(data@.subrange(40, 48) =~= body.subrange(32, 40));
        assert(data@.subrange(48, 56) =~= body.subrange(40, 48));
        assert(data@.subrange(56, 64) =~= body.subrange(48, 56));
    }
    Some(Counter { owner: Identity::new(owner), count, total_increments, created_at })
}

/// Writes `counter` into the bytes of an account, behind the header, which
/// stays as it is, as does what follows the record. An account too short to
/// hold a record is left alone.
pub fn store(data: &mut Vec<u8>, counter: &Counter) -> (r: bool)
    ensures
        r == (old(data)@.len() >= ACCOUNT_LEN),
        final(data)@.len() == old(data)@.len(),
        !r ==> final(data)@ == old(data)@,
        r ==> final(data)@ == old(data)@.subrange(0, HEADER_LEN as int) + record_bytes(counter@)
            + old(data)@.subrange(ACCOUNT_LEN as int, old(data)@.len() as int),
{
    if data.len() < ACCOUNT_LEN {
        return false;
    }
    let ghost before = data@;
    let bytes = encode(counter);
    let mut i: usize = 0;
    while i < RECORD_LEN
        invariant
            i <= RECORD_LEN,
            bytes@.len() == RECORD_LEN,
            data@.len() == before.len(),
            before.len() >= ACCOUNT_LEN,
            forall|k: int| 0 <= k < HEADER_LEN || HEADER_LEN + i <= k < before.len() ==> data@[k]
                == before[k],
            forall|k: int| 0 <= k < i ==> data@[HEADER_LEN + k] == bytes@[k],
        decreases RECORD_LEN - i,
    {
        data[HEADER_LEN + i] = bytes[i];
        i += 1;
    }
    assert(data@ =~= before.subrange(0, HEADER_LEN as int) + record_bytes(counter@)
        + before.subrange(ACCOUNT_LEN as int, before.len() as int));
    true
}

} // verus!
