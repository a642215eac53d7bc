//! The framing spoken on a connection: request headers in, read responses out.
use crate::endian::{le_bytes, le_u32, lemma_le_round_trip, read_le_u32, write_le_u32};
use vstd::prelude::*;

verus! {

/// Bytes in a request header: the opcode, then the sector number.
pub const HEADER_SIZE: usize = 5;

/// Opcode of a read request.
pub const OP_READ: u8 = 1;

/// Opcode of a write request.
pub const OP_WRITE: u8 = 2;

/// The two requests a client can make.
#[derive(Debug, Clone, Copy, PartialEq, Eq, Structural)]
pub enum Opcode {
    /// Followed by one byte: how many consecutive sectors to read.
    Read,
    /// Followed by the sector's 512 bytes; never answered.
    Write,
}

/// A decoded request header.
#[derive(Debug, Clone, Copy, PartialEq, Eq, Structural)]
pub struct Header {
    pub opcode: Opcode,
    pub sector: u32,
}

/// The header that five bytes hold: `None` for an unknown opcode.
pub open spec fn header_of(bytes: Seq<u8>) -> Option<Header> {
    if bytes[0] == OP_READ {
        Some(Header { opcode: Opcode::Read, sector: le_u32(bytes.subrange(1, 5)) })
    } else if bytes[0] == OP_WRITE {
        Some(Header { opcode: Opcode::Write, sector: le_u32(bytes.subrange(1, 5)) })
    } else {
        None
    }
}

/// Decodes a request header. `None` means the connection is to be closed.
pub fn decode_header(bytes: &[u8]) -> (r: Option<Header>)
    requires
        bytes@.len() == HEADER_SIZE,
    ensures
        r == header_of(bytes@),
{
    let op = bytes[0];
    if op == OP_READ {
        Some(Header { opcode: Opcode::Read, sector: read_le_u32(bytes, 1) })
    } else if op == OP_WRITE {
        Some(Header { opcode: Opcode::Write, sector: read_le_u32(bytes, 1) })
    } else {
        None
    }
}

/// Bytes that follow a header with this opcode.
pub fn body_len(opcode: Opcode) -> (r: usize)
    ensures
        r == (match opcode {
            Opcode::Read => 1usize,
            Opcode::Write => 512usize,
        }),
{
    match opcode {
        Opcode::Read => 1,
        Opcode::Write => 512,
    }
}

/// The LZ4 block that the compressor makes of `input`.
pub uninterp spec fn lz4_block_of(input: Seq<u8>) -> Seq<u8>;

/// Relies on lz4_flex's `block::compress`: the LZ4 block of the input, a
/// function of the input bytes alone.
#[verifier::external_body]
fn lz4_compress(input: &[u8]) -> (r: Vec<u8>)
    ensures
        r@ == lz4_block_of(input@),
{
    lz4_flex::block::compress(input)
}

/// A compressed-mode response for the payload `raw` whose LZ4 block is
/// `block`: the length of what follows as four little-endian bytes, then the
/// block where it is shorter than `raw`, else `raw` itself.
pub open spec fn framed(raw: Seq<u8>, block: Seq<u8>) -> Seq<u8> {
    if block.len() < raw.len() {
        le_bytes(block.len() as u32) + block
    } else {
        le_bytes(raw.len() as u32) + raw
    }
}

/// The length field of a compressed-mode response counts the bytes after it;
/// it is below the payload's length exactly when those bytes are the LZ4
/// block, and equal to it exactly when they are the payload itself.
pub proof fn law_frame_length(raw: Seq<u8>, block: Seq<u8>)
    requires
        raw.len() <= u32::MAX,
    ensures
        ({
            let r = framed(raw, block);
            let l = le_u32(r.subrange(0, 4)) as int;
            &&& l == r.len() - 4
            &&& l <= raw.len()
            &&& l < raw.len() ==> r.subrange(4, r.len() as int) == block
            &&& l == raw.len() ==> r.subrange(4, r.len() as int) == raw
        }),
{
    let r = framed(raw, block);
    let body = if block.len() < raw.len() {
        block
    } else {
        raw
    };
    lemma_le_round_trip(body.len() as u32);
    assert(r.subrange(0, 4) =~= le_bytes(body.len() as u32));
    assert(r.subrange(4, r.len() as int) =~= body);
}

/// Frames the payload `raw` given its LZ4 block `block`.
pub fn frame_compressed(raw: &[u8], block: &[u8]) -> (r: Vec<u8>)
    requires
        raw@.len() <= u32::MAX,
    ensures
        r@ == framed(raw@, block@),
{
    let body = if block.len() < raw.len() {
        block
    } else {
        raw
    };
    let n = body.len();
    let head = write_le_u32(n as u32);
    let mut out: Vec<u8> = Vec::new();
    out.push(head[0]);
    out.push(head[1]);
    out.push(head[2]);
    out.push(head[3]);
    let mut i: usize = 0;
    while i < n
        invariant
            n == body@.len(),
            n <= u32::MAX,
            i <= n,
            out@ =~= le_bytes(n as u32) + body@.subrange(0, i as int),
        decreases n - i,
    {
        out.push(body[i]);
        i = i + 1;
        assert(out@ =~= le_bytes(n as u32) + body@.subrange(0, i as int));
    }
    assert(body@.subrange(0, n as int) =~= body@);
    out
}

/// The compressed-mode response for the payload `raw`.
pub fn compress_response(raw: &[u8]) -> (r: Vec<u8>)
    requires
        raw@.len() <= u32::MAX,
    ensures
        r@ == framed(raw@, lz4_block_of(raw@)),
        r@.len() <= raw@.len() + 4,
{
    let block = lz4_compress(raw);
    frame_compressed(raw, block.as_slice())
}

} // verus!
