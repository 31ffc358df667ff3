//! The length prefix that makes a hidden payload describe itself: sixteen
//! bytes that hold the payload's length as an unsigned big-endian number.

use vstd::prelude::*;

verus! {

/// The number of bytes of the length prefix.
pub const LENGTH_PREFIX_BYTES: usize = 16;

/// `value` without its `count` least significant bytes.
pub open spec fn drop_low_bytes(value: nat, count: nat) -> nat
    decreases count,
{
    if count == 0 {
        value
    } else {
        drop_low_bytes(value, (count - 1) as nat) / 256
    }
}

/// The sixteen bytes that stand for `length`, most significant first.
pub open spec fn length_prefix(length: nat) -> Seq<u8> {
    Seq::new(16, |i: int| (drop_low_bytes(length, (15 - i) as nat) % 256) as u8)
}

/// The number that a run of bytes stands for, most significant first.
pub open spec fn be_value(bytes: Seq<u8>) -> nat
    decreases bytes.len(),
{
    if bytes.len() == 0 {
        0
    } else {
        256 * be_value(bytes.drop_last()) + bytes.last() as nat
    }
}

/// The first number that `count` bytes cannot hold: `256^count`.
pub open spec fn be_limit(count: nat) -> nat
    decreases count,
{
    if count == 0 {
        1
    } else {
        256 * be_limit((count - 1) as nat)
    }
}

/// A payload with its length prefix in front: the stream that is hidden.
pub open spec fn framed(payload: Seq<u8>) -> Seq<u8> {
    length_prefix(payload.len()) + payload
}

/// Dropping one byte first, or last, comes to the same.
pub proof fn lemma_drop_low_bytes_shift(value: nat, count: nat)
    ensures
        drop_low_bytes(value, count + 1) == drop_low_bytes(value / 256, count),
    decreases count,
{
    if count > 0 {
        lemma_drop_low_bytes_shift(value, (count - 1) as nat);
        assert(drop_low_bytes(value, count + 1) == drop_low_bytes(value, count) / 256);
        assert(drop_low_bytes(value / 256, count) == drop_low_bytes(
            value / 256,
            (count - 1) as nat,
        ) / 256);
    } else {
        assert(drop_low_bytes(value, 1) == drop_low_bytes(value, 0) / 256);
    }
}

/// The big-endian digits of `value`, `count` of them.
pub open spec fn be_digits(value: nat, count: nat) -> Seq<u8> {
    Seq::new(count, |i: int| (drop_low_bytes(value, (count - 1 - i) as nat) % 256) as u8)
}

/// A number that `count` bytes can hold is the value of its `count` digits.
pub proof fn lemma_be_value_of_digits(value: nat, count: nat)
    requires
        drop_low_bytes(value, count) == 0,
    ensures
        be_value(be_digits(value, count)) == value,
    decreases count,
{
    if count > 0 {
        let digits = be_digits(value, count);
        let rest = be_digits(value / 256, (count - 1) as nat);
        assert(digits.drop_last() =~= rest) by {
            assert forall|i: int| 0 <= i < count - 1 implies digits.drop_last()[i] == rest[i] by {
                lemma_drop_low_bytes_shift(value, (count - 2 - i) as nat);
            }
        }
        lemma_drop_low_bytes_shift(value, (count - 1) as nat);
        lemma_be_value_of_digits(value / 256, (count - 1) as nat);
        assert(digits.last() == (value % 256) as u8);
    } else {
        assert(be_digits(value, count).len() == 0);
    }
}

/// Sixteen bytes hold every length below `2^128`.
pub proof fn lemma_sixteen_bytes_suffice(length: nat)
    requires
        length <= u128::MAX,
    ensures
        drop_low_bytes(length, 16) == 0,
{
    reveal_with_fuel(drop_low_bytes, 17);
}

/// Reading a length prefix gives back the length that was written.
pub proof fn lemma_length_prefix_round_trip(length: nat)
    requires
        length <= u128::MAX,
    ensures
        length_prefix(length).len() == 16,
        be_value(length_prefix(length)) == length,
{
    lemma_sixteen_bytes_suffice(length);
    lemma_be_value_of_digits(length, 16);
    assert(length_prefix(length) =~= be_digits(length, 16));
}

/// The value of a run of bytes stays below the limit of its length.
pub proof fn lemma_be_value_bounded(bytes: Seq<u8>)
    ensures
        be_value(bytes) < be_limit(bytes.len()),
    decreases bytes.len(),
{
    if bytes.len() > 0 {
        lemma_be_value_bounded(bytes.drop_last());
    }
}

/// More bytes hold larger numbers.
pub proof fn lemma_be_limit_monotone(fewer: nat, more: nat)
    requires
        fewer <= more,
    ensures
        be_limit(fewer) <= be_limit(more),
    decreases more,
{
    if fewer < more {
        lemma_be_limit_monotone(fewer, (more - 1) as nat);
    }
}

/// Sixteen bytes hold the numbers below `2^128`.
pub proof fn lemma_be_limit_sixteen()
    ensures
        be_limit(16) == 0x1_0000_0000_0000_0000_0000_0000_0000_0000,
        be_limit(15) == 0x100_0000_0000_0000_0000_0000_0000_0000,
{
    reveal_with_fuel(be_limit, 17);
}

/// The length prefix for a payload of `length` bytes.
pub fn encode_length(length: usize) -> (prefix: Vec<u8>)
    ensures
        prefix@ == length_prefix(length as nat),
{
    let mut prefix: Vec<u8> = Vec::new();
    let mut filled: usize = 0;
    while filled < LENGTH_PREFIX_BYTES
        invariant
            filled <= 16,
            prefix@.len() == filled,
        decreases 16 - filled,
    {
        prefix.push(0);
        filled = filled + 1;
    }
    let mut rest: u128 = length as u128;
    let mut done: usize = 0;
    while done < LENGTH_PREFIX_BYTES
        invariant
            done <= 16,
            prefix@.len() == 16,
            rest == drop_low_bytes(length as nat, done as nat),
            forall|i: int|
                16 - done <= i < 16 ==> prefix@[i] == (drop_low_bytes(length as nat, (15 - i) as nat)
                    % 256) as u8,
        decreases 16 - done,
    {
        let digit: u8 = (rest % 256) as u8;
        prefix.set(LENGTH_PREFIX_BYTES - 1 - done, digit);
        rest = rest / 256;
        done = done + 1;
    }
    assert(prefix@ =~= length_prefix(length as nat));
    prefix
}

/// A payload with its length prefix in front.
pub fn frame(payload: &[u8]) -> (stream: Vec<u8>)
    requires
        payload@.len() + 16 <= usize::MAX,
    ensures
        stream@ == framed(payload@),
{
    let mut stream = encode_length(payload.len());
    let mut copied: usize = 0;
    while copied < payload.len()
        invariant
            copied <= payload@.len(),
            stream@ == length_prefix(payload@.len()) + payload@.subrange(0, copied as int),
        decreases payload@.len() - copied,
    {
        stream.push(payload[copied]);
        copied = copied + 1;
        assert(stream@ =~= length_prefix(payload@.len()) + payload@.subrange(0, copied as int));
    }
    assert(payload@.subrange(0, copied as int) =~= payload@);
    stream
}

} // verus!
