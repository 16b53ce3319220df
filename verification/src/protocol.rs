//! The fixed-width length prefix: eight bytes, most significant first.
//!
//! [`tobytcp_prefix`] writes a length, [`tobytcp_len`] reads it back. What
//! the bytes are is said by [`be_bytes`] and [`be_value`], and the two are
//! inverse to each other: [`lemma_prefix_round_trip`],
//! [`lemma_length_round_trip`].

use vstd::arithmetic::div_mod::{lemma_breakdown, lemma_div_denominator};
use vstd::prelude::*;

verus! {

/// The two wire formats of a length. They do not mix: both ends of a
/// connection use the same one.
#[derive(Clone, Copy, Debug, PartialEq, Eq, Structural)]
pub enum Framing {
    /// Eight bytes, most significant first.
    Fixed,
    /// Base-128 groups, most significant first, the high bit set on every
    /// byte but the last.
    Variable,
}

/// Why a length could not be decoded.
#[derive(Clone, Copy, Debug, PartialEq, Eq, Structural)]
pub enum DecodeError {
    /// The length on the wire is larger than this platform can address, or
    /// than the 64 bits that a length has.
    LengthOverflow,
    /// A variable-width prefix ran past the bytes that any 64-bit length needs.
    PrefixTooLong,
}

/// Number of bytes in a fixed-width prefix.
pub const PREFIX_LEN: usize = 8;

/// `256` to the power `k`.
pub open spec fn pow256(k: nat) -> nat
    decreases k,
{
    if k == 0 {
        1
    } else {
        256 * pow256((k - 1) as nat)
    }
}

/// The number that `bytes` spell in base 256, most significant byte first.
pub open spec fn be_value(bytes: Seq<u8>) -> nat
    decreases bytes.len(),
{
    if bytes.len() == 0 {
        0
    } else {
        be_value(bytes.drop_last()) * 256 + bytes.last() as nat
    }
}

/// Byte `i` of `n` written in `width` bytes, most significant byte first.
pub open spec fn be_digit(n: nat, width: nat, i: int) -> u8 {
    ((n / pow256((width - 1 - i) as nat)) % 256) as u8
}

/// `n` written in `width` bytes, most significant byte first.
pub open spec fn be_bytes(n: nat, width: nat) -> Seq<u8> {
    Seq::new(width, |i: int| be_digit(n, width, i))
}

/// `256^k` is positive.
pub proof fn lemma_pow256_positive(k: nat)
    ensures
        pow256(k) > 0,
    decreases k,
{
    if k > 0 {
        lemma_pow256_positive((k - 1) as nat);
    }
}

/// `256^k` grows with `k`.
pub proof fn lemma_pow256_monotone(j: nat, k: nat)
    requires
        j <= k,
    ensures
        pow256(j) <= pow256(k),
    decreases k,
{
    if j < k {
        lemma_pow256_monotone(j, (k - 1) as nat);
    }
}

/// `256^8` is one more than the largest `u64`.
pub proof fn lemma_pow256_8()
    ensures
        pow256(8) == 0x1_0000_0000_0000_0000,
{
    reveal_with_fuel(pow256, 9);
}

/// Reading one more byte shifts what was read by one place and adds the byte.
pub proof fn lemma_be_value_step(bytes: Seq<u8>, i: int)
    requires
        0 <= i < bytes.len(),
    ensures
        be_value(bytes.take(i + 1)) == be_value(bytes.take(i)) * 256 + bytes[i] as nat,
{
    assert(bytes.take(i + 1).drop_last() =~= bytes.take(i));
}

/// A number spelled in `k` bytes is below `256^k`.
pub proof fn lemma_be_value_bound(bytes: Seq<u8>)
    ensures
        be_value(bytes) < pow256(bytes.len()),
    decreases bytes.len(),
{
    if bytes.len() > 0 {
        lemma_be_value_bound(bytes.drop_last());
    }
}

/// Dropping the last of `width` bytes of `n` leaves `n / 256` in one byte less.
pub proof fn lemma_be_bytes_drop_last(n: nat, width: nat)
    requires
        width > 0,
    ensures
        be_bytes(n, width).drop_last() == be_bytes(n / 256, (width - 1) as nat),
        be_bytes(n, width).last() as nat == n % 256,
{
    let shorter = be_bytes(n / 256, (width - 1) as nat);
    assert forall|i: int| 0 <= i < width - 1 implies be_bytes(n, width)[i] == shorter[i] by {
        let p = pow256((width - 2 - i) as nat);
        lemma_pow256_positive((width - 2 - i) as nat);
        lemma_div_denominator(n as int, 256, p as int);
        assert(pow256((width - 1 - i) as nat) == 256 * p);
    }
    assert(be_bytes(n, width).drop_last() =~= shorter);
    assert(pow256((width - 1 - (width - 1)) as nat) == 1);
    assert(be_bytes(n, width).last() == be_digit(n, width, width - 1));
}

/// Writing `n` in `width` bytes and reading it back gives `n` modulo `256^width`.
pub proof fn lemma_be_value_of_be_bytes(n: nat, width: nat)
    ensures
        be_value(be_bytes(n, width)) == n % pow256(width),
    decreases width,
{
    if width > 0 {
        let p = pow256((width - 1) as nat);
        lemma_pow256_positive((width - 1) as nat);
        lemma_be_bytes_drop_last(n, width);
        lemma_be_value_of_be_bytes(n / 256, (width - 1) as nat);
        lemma_breakdown(n as int, 256, p as int);
    }
}

/// Reading bytes as a number and writing the number in as many bytes gives the bytes.
pub proof fn lemma_be_bytes_of_be_value(bytes: Seq<u8>)
    ensures
        be_bytes(be_value(bytes), bytes.len()) == bytes,
    decreases bytes.len(),
{
    if bytes.len() > 0 {
        let written = be_bytes(be_value(bytes), bytes.len());
        lemma_be_bytes_of_be_value(bytes.drop_last());
        lemma_be_bytes_drop_last(be_value(bytes), bytes.len());
        assert(written =~= written.drop_last().push(written.last()));
        assert(bytes =~= bytes.drop_last().push(bytes.last()));
    } else {
        assert(be_bytes(0, 0) =~= bytes);
    }
}

/// Decoding an encoded length gives the length back.
pub proof fn lemma_prefix_round_trip(num: u64)
    ensures
        be_bytes(num as nat, 8).len() == 8,
        be_value(be_bytes(num as nat, 8)) == num,
{
    lemma_be_value_of_be_bytes(num as nat, 8);
    lemma_pow256_8();
}

/// Encoding a decoded prefix gives the prefix back, so no two prefixes
/// announce the same length.
pub proof fn lemma_length_round_trip(prefix: Seq<u8>)
    requires
        prefix.len() == 8,
    ensures
        be_value(prefix) <= u64::MAX,
        be_bytes(be_value(prefix), 8) == prefix,
{
    lemma_be_bytes_of_be_value(prefix);
    lemma_be_value_bound(prefix);
    lemma_pow256_8();
}

/// Reads eight bytes as a big-endian number.
pub fn bytes_to(bytes: &[u8]) -> (value: u64)
    requires
        bytes@.len() == 8,
    ensures
        value as nat == be_value(bytes@),
        be_bytes(value as nat, 8) == bytes@,
{
    let mut ret: u64 = 0;
    let mut i: usize = 0;
    proof {
        lemma_pow256_8();
    }
    while i < 8
        invariant
            i <= 8,
            bytes@.len() == 8,
            ret as nat == be_value(bytes@.take(i as int)),
            pow256(8) == 0x1_0000_0000_0000_0000,
        decreases 8 - i,
    {
        proof {
            lemma_be_value_step(bytes@, i as int);
            lemma_be_value_bound(bytes@.take(i as int + 1));
            lemma_pow256_monotone((i + 1) as nat, 8);
        }
        ret = ret * 256 + bytes[i] as u64;
        i += 1;
    }
    proof {
        assert(bytes@.take(8) =~= bytes@);
        lemma_length_round_trip(bytes@);
    }
    ret
}

/// Writes a number as eight big-endian bytes.
pub fn bytes_from(num: u64) -> (bytes: [u8; 8])
    ensures
        bytes@ == be_bytes(num as nat, 8),
        be_value(bytes@) == num,
{
    let mut ret: [u8; 8] = [0u8; 8];
    let mut rest: u64 = num;
    let mut i: usize = 0;
    assert(pow256(0) == 1);
    while i < 8
        invariant
            i <= 8,
            rest as nat == num as nat / pow256(i as nat),
            forall|j: int| 8 - i <= j < 8 ==> ret@[j] == be_digit(num as nat, 8, j),
        decreases 8 - i,
    {
        proof {
            lemma_pow256_positive(i as nat);
            lemma_div_denominator(num as int, pow256(i as nat) as int, 256);
            assert(pow256((i + 1) as nat) == pow256(i as nat) * 256);
        }
        ret[7 - i] = (rest % 256) as u8;
        rest = rest / 256;
        i += 1;
    }
    proof {
        assert(ret@ =~= be_bytes(num as nat, 8));
        lemma_prefix_round_trip(num);
    }
    ret
}

/// The prefix that announces a payload of `num` bytes.
pub fn tobytcp_prefix(num: usize) -> (prefix: [u8; 8])
    ensures
        prefix@ == be_bytes(num as nat, 8),
        be_value(prefix@) == num,
{
    bytes_from(num as u64)
}

/// The payload length that an eight-byte prefix announces.
pub fn tobytcp_len(buf: [u8; 8]) -> (len: u64)
    ensures
        len as nat == be_value(buf@),
        be_bytes(len as nat, 8) == buf@,
{
    bytes_to(buf.as_slice())
}

/// Narrows a length from the wire to one that this platform can address.
pub fn to_usize(num: u64) -> (len: Result<usize, DecodeError>)
    ensures
        num <= usize::MAX ==> len == Ok::<usize, DecodeError>(num as usize),
        num > usize::MAX ==> len == Err::<usize, DecodeError>(DecodeError::LengthOverflow),
{
    if num > usize::MAX as u64 {
        Err(DecodeError::LengthOverflow)
    } else {
        Ok(num as usize)
    }
}

} // verus!
