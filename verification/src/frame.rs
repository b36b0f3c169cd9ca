//! Length-delimited framing: every message crosses the wire as a four-byte
//! big-endian length header followed by exactly that many payload bytes.
//! A header is validated against the frame bound before any payload byte is
//! read or any buffer allocated.

use vstd::prelude::*;
use crate::codec::{be32, from_be32, push_u32};
use crate::protocol::{NfsError, MAX_FRAME_SIZE};

verus! {

/// The header announcing a payload of `len` bytes.
pub fn frame_header(len: u32) -> (r: Vec<u8>)
    requires
        len <= MAX_FRAME_SIZE,
    ensures
        r@ == be32(len),
{
    let mut out: Vec<u8> = Vec::new();
    push_u32(&mut out, len);
    assert(out@ =~= be32(len));
    out
}

/// Validates a received header. A length beyond the frame bound is a
/// protocol error and must terminate the connection before any allocation
/// of that length is attempted.
pub fn parse_frame_header(hdr: &Vec<u8>) -> (r: Result<u32, NfsError>)
    requires
        hdr@.len() == 4,
    ensures
        match r {
            Ok(n) => n == from_be32(hdr@, 0) && n <= MAX_FRAME_SIZE,
            Err(e) => from_be32(hdr@, 0) > MAX_FRAME_SIZE && e is ProtocolError,
        },
{
    let n = ((hdr[0] as u32) << 24) | ((hdr[1] as u32) << 16) | ((hdr[2] as u32) << 8) | (
    hdr[3] as u32);
    if n <= MAX_FRAME_SIZE {
        Ok(n)
    } else {
        Err(NfsError::ProtocolError("declared frame length exceeds the frame bound".to_owned()))
    }
}

/// A whole wire frame: the header, then the payload.
pub fn build_frame(payload: &Vec<u8>) -> (r: Vec<u8>)
    requires
        payload@.len() <= MAX_FRAME_SIZE,
    ensures
        r@ == be32(payload@.len() as u32) + payload@,
{
    let mut out = frame_header(payload.len() as u32);
    out.extend_from_slice(payload.as_slice());
    assert(out@ =~= be32(payload@.len() as u32) + payload@);
    out
}

} // verus!
