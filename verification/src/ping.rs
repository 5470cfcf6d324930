//! The PingReq and PingResp packets: a fixed header alone.  The flags nibble
//! and the remaining length must both be zero.

use crate::codec::{spliced, CodecError, Parsed};
use vstd::prelude::*;

verus! {

/// A keep-alive probe from the client.
#[derive(Clone, Copy, Debug, PartialEq, Eq, Structural)]
pub struct PingReqPacket {}

pub open spec fn pingreq_bytes() -> Seq<u8> {
    seq![0xC0u8, 0x00u8]
}

pub open spec fn parse_pingreq(s: Seq<u8>, i: int, flags: u8, rl: u32) -> Parsed<PingReqPacket> {
    if flags != 0x00 || rl != 0 {
        Parsed::Malformed
    } else {
        Parsed::Found { val: PingReqPacket {}, next: i }
    }
}

impl PingReqPacket {
    pub fn new() -> (r: PingReqPacket)
        ensures
            r == (PingReqPacket {}),
    {
        PingReqPacket {}
    }

    /// Reads the (empty) variable header, the cursor standing after the
    /// fixed header.
    pub fn read(s: &[u8], pos: usize, flags: u8, remaining_length: u32) -> (r: Result<
        (PingReqPacket, usize),
        CodecError,
    >)
        requires
            pos <= s@.len(),
        ensures
            (match parse_pingreq(s@, pos as int, flags, remaining_length) {
                Parsed::Found { val, next } => r == Ok::<(PingReqPacket, usize), CodecError>(
                    (val, pos),
                ) && next == pos,
                Parsed::Incomplete => r == Err::<(PingReqPacket, usize), CodecError>(
                    CodecError::InsufficientBytes,
                ),
                Parsed::Malformed => r == Err::<(PingReqPacket, usize), CodecError>(
                    CodecError::MalformedBytes,
                ),
            }),
    {
        if flags != 0x00 || remaining_length != 0 {
            return Err(CodecError::MalformedBytes);
        }
        Ok((PingReqPacket {}, pos))
    }

    /// Serializes the packet into `buffer` at `index`; fails, touching
    /// nothing, exactly when the buffer is too short.
    pub fn write(&self, buffer: &mut Vec<u8>, index: usize) -> (r: Result<usize, CodecError>)
        requires
            index <= old(buffer)@.len(),
        ensures
            (match r {
                Ok(n) => n == 2 && old(buffer)@.len() >= index + 2 && final(buffer)@ == spliced(
                    old(buffer)@,
                    index as int,
                    pingreq_bytes(),
                ) && final(buffer)@.len() == old(buffer)@.len(),
                Err(e) => e == CodecError::InsufficientBytes && final(buffer)@ == old(buffer)@
                    && old(buffer)@.len() < index + 2,
            }),
    {
        if buffer.len() - index < 2 {
            return Err(CodecError::InsufficientBytes);
        }
        // Binding the length teaches the prover that positions fit in usize.
        let buf_len: usize = buffer.len();
        buffer[index] = 0xC0;
        buffer[index + 1] = 0x00;
        assert(buffer@ =~= spliced(old(buffer)@, index as int, pingreq_bytes()));
        Ok(2)
    }
}

/// The server's answer to a PingReq.
#[derive(Clone, Copy, Debug, PartialEq, Eq, Structural)]
pub struct PingRespPacket {}

pub open spec fn pingresp_bytes() -> Seq<u8> {
    seq![0xD0u8, 0x00u8]
}

pub open spec fn parse_pingresp(s: Seq<u8>, i: int, flags: u8, rl: u32) -> Parsed<
    PingRespPacket,
> {
    if flags != 0x00 || rl != 0 {
        Parsed::Malformed
    } else {
        Parsed::Found { val: PingRespPacket {}, next: i }
    }
}

impl PingRespPacket {
    pub fn new() -> (r: PingRespPacket)
        ensures
            r == (PingRespPacket {}),
    {
        PingRespPacket {}
    }

    /// Reads the (empty) variable header, the cursor standing after the
    /// fixed header.
    pub fn read(s: &[u8], pos: usize, flags: u8, remaining_length: u32) -> (r: Result<
        (PingRespPacket, usize),
        CodecError,
    >)
        requires
            pos <= s@.len(),
        ensures
            (match parse_pingresp(s@, pos as int, flags, remaining_length) {
                Parsed::Found { val, next } => r == Ok::<(PingRespPacket, usize), CodecError>(
                    (val, pos),
                ) && next == pos,
                Parsed::Incomplete => r == Err::<(PingRespPacket, usize), CodecError>(
                    CodecError::InsufficientBytes,
                ),
                Parsed::Malformed => r == Err::<(PingRespPacket, usize), CodecError>(
                    CodecError::MalformedBytes,
                ),
            }),
    {
        if flags != 0x00 || remaining_length != 0 {
            return Err(CodecError::MalformedBytes);
        }
        Ok((PingRespPacket {}, pos))
    }

    /// Serializes the packet into `buffer` at `index`; fails, touching
    /// nothing, exactly when the buffer is too short.
    pub fn write(&self, buffer: &mut Vec<u8>, index: usize) -> (r: Result<usize, CodecError>)
        requires
            index <= old(buffer)@.len(),
        ensures
            (match r {
                Ok(n) => n == 2 && old(buffer)@.len() >= index + 2 && final(buffer)@ == spliced(
                    old(buffer)@,
                    index as int,
                    pingresp_bytes(),
                ) && final(buffer)@.len() == old(buffer)@.len(),
                Err(e) => e == CodecError::InsufficientBytes && final(buffer)@ == old(buffer)@
                    && old(buffer)@.len() < index + 2,
            }),
    {
        if buffer.len() - index < 2 {
            return Err(CodecError::InsufficientBytes);
        }
        // Binding the length teaches the prover that positions fit in usize.
        let buf_len: usize = buffer.len();
        buffer[index] = 0xD0;
        buffer[index + 1] = 0x00;
        assert(buffer@ =~= spliced(old(buffer)@, index as int, pingresp_bytes()));
        Ok(2)
    }
}

} // verus!
