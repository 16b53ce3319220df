//! The sending side: a payload becomes the bytes of its frame.

use crate::protocol::{tobytcp_prefix, Framing, PREFIX_LEN};
use crate::stream::{frame_bytes, prefix_bytes};
use crate::varint::{encode_variable, encoded_len};
use vstd::prelude::*;

verus! {

/// The prefix that announces a payload of `length` bytes.
pub fn encode_prefix(framing: Framing, length: usize) -> (bytes: Vec<u8>)
    ensures
        bytes@ == prefix_bytes(framing, length as nat),
{
    match framing {
        Framing::Fixed => {
            let prefix = tobytcp_prefix(length);
            let mut bytes: Vec<u8> = Vec::new();
            bytes.extend_from_slice(prefix.as_slice());
            assert(bytes@ =~= prefix@);
            bytes
        },
        Framing::Variable => encode_variable(length as u64),
    }
}

/// The bytes that go on the wire for `payload`: the prefix that announces
/// its length, then the payload itself.
pub fn encode_frame(framing: Framing, payload: &[u8]) -> (bytes: Vec<u8>)
    ensures
        bytes@ == frame_bytes(framing, payload@),
{
    let mut bytes: Vec<u8> = encode_prefix(framing, payload.len());
    bytes.extend_from_slice(payload);
    assert(bytes@ =~= frame_bytes(framing, payload@));
    bytes
}

/// Number of bytes that the frame of a payload of `payload_len` bytes takes
/// on the wire, where that number can be counted on this platform.
pub fn frame_len(framing: Framing, payload_len: usize) -> (len: Option<usize>)
    ensures
        match len {
            Some(n) => n == prefix_bytes(framing, payload_len as nat).len() + payload_len,
            None => prefix_bytes(framing, payload_len as nat).len() + payload_len > usize::MAX,
        },
{
    let prefix_len: usize = match framing {
        Framing::Fixed => PREFIX_LEN,
        Framing::Variable => encoded_len(payload_len as u64),
    };
    payload_len.checked_add(prefix_len)
}

} // verus!
