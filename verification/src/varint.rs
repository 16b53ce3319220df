//! The variable-width length prefix: base-128 groups, most significant
//! first. Every byte but the last has its high bit set; the low seven bits
//! of each byte are one digit.
//!
//! [`encode_variable`] writes a length with the fewest groups.
//! [`decode_variable_partial`] reads a prefix that may arrive in pieces; it
//! also reads prefixes padded with zero groups in front, up to
//! [`MAX_PREFIX_LEN`] bytes in all.

use crate::protocol::DecodeError;
use vstd::arithmetic::div_mod::lemma_div_denominator;
use vstd::prelude::*;

verus! {

/// The most bytes that the prefix of a 64-bit length takes.
pub const MAX_PREFIX_LEN: usize = 10;

/// A prefix of which only a part was seen: the digits read so far, as a
/// number, and how many bytes they took.
#[derive(Clone, Copy, Debug, PartialEq, Eq, Structural)]
pub struct PartialPrefix {
    pub value: u64,
    pub consumed: usize,
}

/// What the bytes seen so far make of a prefix.
#[derive(Clone, Copy, Debug, PartialEq, Eq, Structural)]
pub enum PrefixDecode {
    /// The prefix ended. `consumed` counts all of its bytes, those seen in
    /// earlier chunks too.
    Complete { length: u64, consumed: usize },
    /// Every byte seen so far asks for another one.
    Incomplete(PartialPrefix),
}

/// `128` to the power `k`.
pub open spec fn pow128(k: nat) -> nat
    decreases k,
{
    if k == 0 {
        1
    } else {
        128 * pow128((k - 1) as nat)
    }
}

/// Number of base-128 digits of `n`; zero has one digit.
pub open spec fn varint_len(n: nat) -> nat
    decreases n,
{
    if n < 128 {
        1
    } else {
        1 + varint_len(n / 128)
    }
}

/// Byte `i` of the prefix of `n`: the digit, with the high bit set on every
/// byte but the last.
pub open spec fn varint_byte(n: nat, i: int) -> u8 {
    let digit = (n / pow128((varint_len(n) - 1 - i) as nat)) % 128;
    if i < varint_len(n) - 1 {
        (128 + digit) as u8
    } else {
        digit as u8
    }
}

/// The variable-width prefix of `n`.
pub open spec fn varint_bytes(n: nat) -> Seq<u8> {
    Seq::new(varint_len(n), |i: int| varint_byte(n, i))
}

/// The partial prefix in front of the first byte.
pub open spec fn no_prefix() -> PartialPrefix {
    PartialPrefix { value: 0, consumed: 0 }
}

/// What a decoder that stands at `partial` makes of one more byte: a prefix
/// that already has `MAX_PREFIX_LEN` bytes is too long; a digit that takes
/// the number past 64 bits is an overflow; a byte without the high bit ends
/// the prefix.
pub open spec fn step_from(partial: PartialPrefix, byte: u8) -> Result<PrefixDecode, DecodeError> {
    if partial.consumed >= MAX_PREFIX_LEN {
        Err(DecodeError::PrefixTooLong)
    } else if partial.value * 128 + byte % 128 > u64::MAX {
        Err(DecodeError::LengthOverflow)
    } else {
        let value = (partial.value * 128 + byte % 128) as u64;
        let consumed = (partial.consumed + 1) as usize;
        if byte < 128 {
            Ok(PrefixDecode::Complete { length: value, consumed })
        } else {
            Ok(PrefixDecode::Incomplete(PartialPrefix { value, consumed }))
        }
    }
}

/// What a decoder that stands at `partial` makes of `bytes`: it takes byte
/// after byte until the prefix ends, a byte fails, or the bytes run out.
pub open spec fn decode_from(bytes: Seq<u8>, partial: PartialPrefix) -> Result<
    PrefixDecode,
    DecodeError,
>
    decreases bytes.len(),
{
    if bytes.len() == 0 {
        Ok(PrefixDecode::Incomplete(partial))
    } else {
        match step_from(partial, bytes[0]) {
            Ok(PrefixDecode::Incomplete(reached)) => decode_from(bytes.skip(1), reached),
            other => other,
        }
    }
}

/// `128^k` is positive, and at least `128` from `k = 1` on.
pub proof fn lemma_pow128_positive(k: nat)
    ensures
        pow128(k) > 0,
        k > 0 ==> pow128(k) >= 128,
    decreases k,
{
    if k > 0 {
        lemma_pow128_positive((k - 1) as nat);
    }
}

/// `128^k` grows with `k`.
pub proof fn lemma_pow128_monotone(j: nat, k: nat)
    requires
        j <= k,
    ensures
        pow128(j) <= pow128(k),
    decreases k,
{
    if j < k {
        lemma_pow128_monotone(j, (k - 1) as nat);
    }
}

/// A number has as many digits as it takes to hold it and no more: it is
/// below `128^len`, and from one on it is at least `128^(len - 1)`.
pub proof fn lemma_varint_len_bounds(n: nat)
    ensures
        n < pow128(varint_len(n)),
        n > 0 ==> pow128((varint_len(n) - 1) as nat) <= n,
    decreases n,
{
    if n >= 128 {
        lemma_varint_len_bounds(n / 128);
    } else {
        assert(pow128(1) == 128) by {
            reveal_with_fuel(pow128, 2);
        }
    }
}

/// The prefix of a 64-bit length has at most `MAX_PREFIX_LEN` bytes.
pub proof fn lemma_varint_len_max(n: nat)
    requires
        n <= u64::MAX,
    ensures
        1 <= varint_len(n) <= MAX_PREFIX_LEN,
{
    lemma_varint_len_bounds(n);
    if varint_len(n) > 10 {
        lemma_pow128_monotone(10, (varint_len(n) - 1) as nat);
        assert(pow128(10) == 0x400_0000_0000_0000_0000) by {
            reveal_with_fuel(pow128, 11);
        }
    }
}

/// A prefix that ends takes at least one more byte and at most all the
/// bytes given, and never more than `MAX_PREFIX_LEN` in all. A prefix that
/// does not end has taken all the bytes given.
pub proof fn lemma_decode_consumed(bytes: Seq<u8>, partial: PartialPrefix)
    ensures
        decode_from(bytes, partial) matches Ok(PrefixDecode::Complete { consumed, .. })
            ==> partial.consumed < consumed <= partial.consumed + bytes.len() && consumed
            <= MAX_PREFIX_LEN,
        decode_from(bytes, partial) matches Ok(PrefixDecode::Incomplete(reached)) ==> (
        bytes.len() == 0 && reached == partial) || (bytes.len() > 0 && reached.consumed
            == partial.consumed + bytes.len()),
    decreases bytes.len(),
{
    if bytes.len() > 0 {
        match step_from(partial, bytes[0]) {
            Ok(PrefixDecode::Incomplete(reached)) => {
                lemma_decode_consumed(bytes.skip(1), reached);
            },
            _ => {},
        }
    }
}

/// A prefix may arrive in pieces: decoding `first` and going on with `second`
/// from where `first` ended gives what decoding `first + second` gives. Where
/// `first` already ends the prefix or fails, `second` changes nothing.
pub proof fn lemma_decode_resumes(first: Seq<u8>, second: Seq<u8>, partial: PartialPrefix)
    ensures
        decode_from(first + second, partial) == match decode_from(first, partial) {
            Ok(PrefixDecode::Incomplete(reached)) => decode_from(second, reached),
            other => other,
        },
    decreases first.len(),
{
    if first.len() == 0 {
        assert(first + second =~= second);
    } else {
        assert((first + second).skip(1) =~= first.skip(1) + second);
        match step_from(partial, first[0]) {
            Ok(PrefixDecode::Incomplete(reached)) => {
                lemma_decode_resumes(first.skip(1), second, reached);
            },
            _ => {},
        }
    }
}

/// A decoder that has read the first `i` bytes of the prefix of `n` reads
/// `n` from the others.
proof fn lemma_decode_tail(n: nat, i: nat)
    requires
        n <= u64::MAX,
        i < varint_len(n),
    ensures
        decode_from(
            varint_bytes(n).skip(i as int),
            PartialPrefix {
                value: (n / pow128((varint_len(n) - i) as nat)) as u64,
                consumed: i as usize,
            },
        ) == Ok::<PrefixDecode, DecodeError>(
            PrefixDecode::Complete { length: n as u64, consumed: varint_len(n) as usize },
        ),
    decreases varint_len(n) - i,
{
    let len = varint_len(n);
    let place = (len - 1 - i) as nat;
    let rest = varint_bytes(n).skip(i as int);
    let above = n / pow128(place + 1);
    let reached = n / pow128(place);
    lemma_varint_len_max(n);
    lemma_pow128_positive(place);
    lemma_pow128_positive(place + 1);
    assert(above * 128 + reached % 128 == reached) by {
        lemma_div_denominator(n as int, pow128(place) as int, 128);
        assert(pow128(place + 1) == pow128(place) * 128);
    }
    assert(above <= n && reached <= n) by (nonlinear_arith)
        requires
            above == n / pow128(place + 1),
            reached == n / pow128(place),
            pow128(place + 1) > 0,
            pow128(place) > 0,
    ;
    let start = PartialPrefix { value: above as u64, consumed: i as usize };
    assert(rest[0] == varint_byte(n, i as int));
    assert((len - i) as nat == place + 1);
    assert(start.value * 128 + rest[0] % 128 == reached);
    if i == len - 1 {
        assert(pow128(0) == 1);
        assert(reached == n / 1);
        assert(rest[0] < 128);
        assert(step_from(start, rest[0]) == Ok::<PrefixDecode, DecodeError>(
            PrefixDecode::Complete { length: n as u64, consumed: len as usize },
        ));
    } else {
        assert(rest.skip(1) =~= varint_bytes(n).skip(i as int + 1));
        assert((len - (i + 1)) as nat == place);
        lemma_decode_tail(n, i + 1);
        assert(step_from(start, rest[0]) == Ok::<PrefixDecode, DecodeError>(
            PrefixDecode::Incomplete(
                PartialPrefix { value: reached as u64, consumed: (i + 1) as usize },
            ),
        ));
    }
}

/// Round trip: decoding the prefix of a length gives the length, and counts
/// exactly the bytes of the prefix.
pub proof fn lemma_varint_round_trip(length: u64)
    ensures
        1 <= varint_bytes(length as nat).len() <= MAX_PREFIX_LEN,
        decode_from(varint_bytes(length as nat), no_prefix()) == Ok::<PrefixDecode, DecodeError>(
            PrefixDecode::Complete {
                length,
                consumed: varint_bytes(length as nat).len() as usize,
            },
        ),
{
    let n = length as nat;
    lemma_varint_len_max(n);
    lemma_varint_len_bounds(n);
    lemma_pow128_positive(varint_len(n));
    assert(n / pow128(varint_len(n)) == 0) by (nonlinear_arith)
        requires
            n < pow128(varint_len(n)),
    ;
    assert(varint_bytes(n).skip(0) =~= varint_bytes(n));
    lemma_decode_tail(n, 0);
}

/// Writes `length` with the fewest base-128 groups, most significant group
/// first, the high bit set on every byte but the last.
pub fn encode_variable(length: u64) -> (bytes: Vec<u8>)
    ensures
        bytes@ == varint_bytes(length as nat),
        1 <= bytes@.len() <= MAX_PREFIX_LEN,
        decode_from(bytes@, no_prefix()) == Ok::<PrefixDecode, DecodeError>(
            PrefixDecode::Complete { length, consumed: bytes@.len() as usize },
        ),
{
    let ghost n = length as nat;
    let ghost len = varint_len(n);
    let ghost mut k: nat = 0;
    let mut divisor: u64 = 1;
    while length / divisor >= 128
        invariant
            n == length,
            divisor > 0,
            divisor as nat == pow128(k),
            varint_len(n) == k + varint_len(n / divisor as nat),
        decreases length / divisor,
    {
        proof {
            lemma_div_denominator(length as int, divisor as int, 128);
            assert(divisor * 128 <= length) by (nonlinear_arith)
                requires
                    length / divisor >= 128,
                    divisor > 0,
            ;
            k = k + 1;
        }
        divisor = divisor * 128;
    }
    let mut bytes: Vec<u8> = Vec::new();
    while divisor > 1
        invariant
            n == length,
            len == varint_len(n),
            bytes@.len() < len,
            divisor as nat == pow128((len - 1 - bytes@.len()) as nat),
            forall|j: int| 0 <= j < bytes@.len() ==> bytes@[j] == varint_byte(n, j),
        decreases divisor,
    {
        proof {
            lemma_pow128_positive((len - 1 - bytes@.len()) as nat);
        }
        let digit: u8 = ((length / divisor) % 128) as u8;
        bytes.push(128 + digit);
        divisor = divisor / 128;
    }
    proof {
        lemma_pow128_positive((len - 1 - bytes@.len()) as nat);
    }
    bytes.push((length % 128) as u8);
    proof {
        assert(bytes@ =~= varint_bytes(n));
        lemma_varint_round_trip(length);
    }
    bytes
}

/// Number of bytes that the prefix of `length` takes.
pub fn encoded_len(length: u64) -> (len: usize)
    ensures
        len == varint_len(length as nat),
        1 <= len <= MAX_PREFIX_LEN,
{
    let mut groups: usize = 1;
    let mut rest: u64 = length;
    proof {
        lemma_varint_len_max(length as nat);
    }
    while rest >= 128
        invariant
            varint_len(length as nat) <= MAX_PREFIX_LEN,
            varint_len(length as nat) == groups - 1 + varint_len(rest as nat),
        decreases rest,
    {
        rest = rest / 128;
        groups = groups + 1;
    }
    groups
}

/// Reads one more byte of a variable-width prefix.
pub fn decode_step(partial: PartialPrefix, byte: u8) -> (result: Result<PrefixDecode, DecodeError>)
    ensures
        result == step_from(partial, byte),
{
    if partial.consumed >= MAX_PREFIX_LEN {
        return Err(DecodeError::PrefixTooLong);
    }
    let digit: u64 = (byte % 128) as u64;
    if partial.value > (u64::MAX - digit) / 128 {
        return Err(DecodeError::LengthOverflow);
    }
    let value: u64 = partial.value * 128 + digit;
    let consumed: usize = partial.consumed + 1;
    if byte < 128 {
        Ok(PrefixDecode::Complete { length: value, consumed })
    } else {
        Ok(PrefixDecode::Incomplete(PartialPrefix { value, consumed }))
    }
}

/// Reads a variable-width prefix from `chunk`, going on from `previous`
/// where an earlier chunk ended inside the prefix.
///
/// Bytes of `chunk` behind the end of the prefix are not looked at. Of the
/// `consumed` bytes of a complete prefix, `consumed - previous.consumed`
/// are the first bytes of `chunk`.
pub fn decode_variable_partial(chunk: &[u8], previous: Option<PartialPrefix>) -> (result: Result<
    PrefixDecode,
    DecodeError,
>)
    ensures
        result == decode_from(
            chunk@,
            match previous {
                Some(partial) => partial,
                None => no_prefix(),
            },
        ),
{
    let start: PartialPrefix = match previous {
        Some(partial) => partial,
        None => PartialPrefix { value: 0, consumed: 0 },
    };
    let mut partial: PartialPrefix = start;
    let mut i: usize = 0;
    assert(chunk@.skip(0) =~= chunk@);
    while i < chunk.len()
        invariant
            i <= chunk@.len(),
            start == match previous {
                Some(partial) => partial,
                None => no_prefix(),
            },
            decode_from(chunk@, start) == decode_from(chunk@.skip(i as int), partial),
        decreases chunk@.len() - i,
    {
        assert(chunk@.skip(i as int).skip(1) =~= chunk@.skip(i + 1));
        match decode_step(partial, chunk[i]) {
            Ok(PrefixDecode::Incomplete(reached)) => {
                partial = reached;
            },
            other => {
                return other;
            },
        }
        i += 1;
    }
    Ok(PrefixDecode::Incomplete(partial))
}

} // verus!
