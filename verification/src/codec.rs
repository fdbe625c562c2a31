//! The lossless byte compressor of the delta path: LZ4 blocks, each with the
//! uncompressed size in front as a little-endian `u32`.

use vstd::prelude::*;
use crate::delta::DirtyRect;
use crate::delta::RectView;
use crate::delta::rect_views;
use crate::payload::DeltaError;
use crate::payload::delta_payload;
use crate::payload::encode_delta;
use crate::payload::parse_delta;
use crate::payload::parse_delta_payload;

verus! {

/// Longest input that the compressor's size prefix can announce: it has
/// 32 bits.
pub const MAX_PAYLOAD_LEN: usize = 0xFFFF_FFFF;

/// Longest compressed block that is handed to the decompressor. Below this
/// length no run of length bytes in a block can add up to more than the
/// decompressor's 32-bit counters hold.
pub const MAX_PACKED_LEN: usize = 0x100_0000;

/// Largest uncompressed size that a block may announce. The decompressor
/// allocates that much before it reads on.
pub const MAX_UNPACKED_LEN: u32 = 0x1000_0000;

/// Why a payload could not be compressed or decompressed.
#[derive(Debug, Copy, Clone, PartialEq, Eq, Structural)]
pub enum CodecError {
    /// The data, or the size that a block announces, is above the limits of
    /// this module.
    TooLarge,
    /// The decompressor rejected the block.
    Corrupt,
    /// The block decompressed, but what came out is no delta payload.
    Malformed(DeltaError),
}

/// The number that four bytes spell, least significant first.
pub open spec fn le_value(b: Seq<u8>) -> u32
    recommends
        b.len() == 4,
{
    (b[0] + b[1] * 0x100 + b[2] * 0x1_0000 + b[3] * 0x100_0000) as u32
}

/// Reads the little-endian `u32` at the start of `bytes`.
pub fn get_u32_le(bytes: &[u8]) -> (x: u32)
    requires
        bytes.len() >= 4,
    ensures
        x == le_value(bytes@.subrange(0, 4)),
{
    let b0: u32 = bytes[0] as u32;
    let b1: u32 = bytes[1] as u32;
    let b2: u32 = bytes[2] as u32;
    let b3: u32 = bytes[3] as u32;
    b0 + b1 * 0x100 + b2 * 0x1_0000 + b3 * 0x100_0000
}

/// What `lz4_flex::block::decompress_size_prepended` returns for a block:
/// the decompressed bytes, or `None` where it reports an error.
pub uninterp spec fn lz4_unblock(block: Seq<u8>) -> Option<Seq<u8>>;

/// The error of `lz4_flex`'s block decompressor, carried as it is; nothing
/// is read from it.
#[verifier::external_type_specification]
#[verifier::external_body]
pub struct ExDecompressError(lz4_flex::block::DecompressError);

/// Whether a payload of this length can be handed to the compressor: the
/// 32-bit size prefix can say its length, and the compressor's own bound on
/// the size of the block, a tenth more than the payload, can be computed on
/// this machine.
pub open spec fn compressible(len: int) -> bool {
    len <= MAX_PAYLOAD_LEN && len * 110 <= usize::MAX
}

/// Whether a block is one that the compressor makes of a payload: the
/// decompressor turns it back into the payload, its first four bytes spell
/// the length of the payload, least significant first, and it is at most a
/// tenth longer than the payload, and 24 bytes.
pub open spec fn is_packed(block: Seq<u8>, payload: Seq<u8>) -> bool {
    &&& lz4_unblock(block) == Some(payload)
    &&& 4 <= block.len() <= 24 + payload.len() * 110 / 100
    &&& le_value(block.subrange(0, 4)) == payload.len()
}

/// Calls `lz4_flex::block::compress_prepend_size`. The bytes of the block
/// depend on the word size of the machine, so they get no name. What is
/// claimed is what the crate documents of the pair of functions, and what
/// its source shows of the block: `decompress_size_prepended` turns the
/// block back into the input; the block begins with the length of the
/// input as four bytes, least significant first; and it is cut out of a
/// buffer of `24 + len * 110 / 100` bytes, so it is no longer than that.
/// Inputs that are not `compressible` are left out.
#[verifier::external_body]
fn lz4_compress(input: &[u8]) -> (out: Vec<u8>)
    requires
        compressible(input@.len() as int),
    ensures
        is_packed(out@, input@),
{
    lz4_flex::block::compress_prepend_size(input)
}

/// Calls `lz4_flex::block::decompress_size_prepended`. The contract only
/// names the result: the same block always gives the same bytes, or always
/// an error. Blocks above the limits of this module are left out.
#[verifier::external_body]
fn lz4_decompress(block: &[u8]) -> (r: Result<Vec<u8>, lz4_flex::block::DecompressError>)
    requires
        within_limits(block@),
    ensures
        match r {
            Ok(bytes) => lz4_unblock(block@) == Some(bytes@),
            Err(_) => lz4_unblock(block@) is None,
        },
{
    lz4_flex::block::decompress_size_prepended(block)
}

/// Whether a block may be handed to the decompressor: it is not longer than
/// `MAX_PACKED_LEN`, and the size it announces, if it is long enough to
/// announce one, is not above `MAX_UNPACKED_LEN`.
pub open spec fn within_limits(block: Seq<u8>) -> bool {
    &&& block.len() <= MAX_PACKED_LEN
    &&& block.len() >= 4 ==> le_value(block.subrange(0, 4)) <= MAX_UNPACKED_LEN
}

/// What `unpack` returns for a block.
pub open spec fn unpacked(block: Seq<u8>) -> Result<Seq<u8>, CodecError> {
    if !within_limits(block) {
        Err(CodecError::TooLarge)
    } else {
        match lz4_unblock(block) {
            Some(bytes) => Ok(bytes),
            None => Err(CodecError::Corrupt),
        }
    }
}

/// Tests `within_limits`.
pub fn check_limits(block: &[u8]) -> (ok: bool)
    ensures
        ok == within_limits(block@),
{
    if block.len() > MAX_PACKED_LEN {
        return false;
    }
    if block.len() >= 4 {
        let announced = get_u32_le(block);
        if announced > MAX_UNPACKED_LEN {
            return false;
        }
    }
    true
}

/// Compresses a payload into a block that decompresses to the payload.
/// Fails exactly when the payload is not `compressible`.
pub fn pack(payload: &[u8]) -> (r: Result<Vec<u8>, CodecError>)
    ensures
        compressible(payload@.len() as int) ==> (r matches Ok(block) && is_packed(block@, payload@)),
        !compressible(payload@.len() as int) ==> r == Err::<Vec<u8>, CodecError>(CodecError::TooLarge),
{
    if payload.len() > MAX_PAYLOAD_LEN || payload.len() > usize::MAX / 110 {
        return Err(CodecError::TooLarge);
    }
    Ok(lz4_compress(payload))
}

/// Decompresses a block. A block above the limits is refused as too large;
/// one that the decompressor rejects is reported as corrupt. Neither ends
/// anything but the handling of this one block.
pub fn unpack(block: &[u8]) -> (r: Result<Vec<u8>, CodecError>)
    ensures
        match r {
            Ok(bytes) => unpacked(block@) == Ok::<Seq<u8>, CodecError>(bytes@),
            Err(e) => unpacked(block@) == Err::<Seq<u8>, CodecError>(e),
        },
{
    if !check_limits(block) {
        return Err(CodecError::TooLarge);
    }
    match lz4_decompress(block) {
        Ok(bytes) => Ok(bytes),
        Err(_) => Err(CodecError::Corrupt),
    }
}

/// Whether a list of rectangles can be written as one payload and handed
/// to the compressor: the count field can say their number, and the list
/// written out is `compressible`.
pub open spec fn packable(rects: Seq<RectView>) -> bool {
    rects.len() <= u32::MAX && compressible(delta_payload(rects).len() as int)
}

/// Whether a payload of this length is sure to give a block that the
/// decompressor takes: the length is within what a block may announce, and
/// the longest block that the compressor can make of it is within what the
/// decompressor is handed.
pub open spec fn surely_within_limits(len: int) -> bool {
    len <= MAX_UNPACKED_LEN && 24 + len * 110 / 100 <= MAX_PACKED_LEN
}

/// The block of a payload that is short enough is within the limits of
/// the decompressor.
pub proof fn lemma_short_payload_within_limits(block: Seq<u8>, payload: Seq<u8>)
    requires
        is_packed(block, payload),
        surely_within_limits(payload.len() as int),
    ensures
        within_limits(block),
        unpacked(block) == Ok::<Seq<u8>, CodecError>(payload),
{
}

/// Tests `surely_within_limits`.
pub fn check_surely_within_limits(len: usize) -> (ok: bool)
    ensures
        ok == surely_within_limits(len as int),
{
    if len > MAX_UNPACKED_LEN as usize {
        return false;
    }
    let longest: u64 = 24 + (len as u64) * 110 / 100;
    longest <= MAX_PACKED_LEN as u64
}

/// Compresses a payload that is short enough into a block that the
/// decompressor takes and turns back into the payload.
pub fn pack_short(payload: &[u8]) -> (block: Vec<u8>)
    requires
        surely_within_limits(payload@.len() as int),
    ensures
        is_packed(block@, payload@),
        within_limits(block@),
        unpacked(block@) == Ok::<Seq<u8>, CodecError>(payload@),
{
    assert(usize::MAX >= 0xFFFF_FFFF);
    lz4_compress(payload)
}

/// A whole rectangle list as the payload of one delta message: the list
/// written out and compressed into a block that decompresses to the list
/// written out. Fails exactly when the list is not packable. The block of a
/// long list may be above the limits of the decompressor; the producer
/// sends such a list in parts that are each within them.
pub fn pack_delta(rects: &Vec<DirtyRect>) -> (r: Result<Vec<u8>, CodecError>)
    ensures
        packable(rect_views(rects@)) ==> (r matches Ok(block) && is_packed(
            block@,
            delta_payload(rect_views(rects@)),
        )),
        !packable(rect_views(rects@)) ==> r == Err::<Vec<u8>, CodecError>(CodecError::TooLarge),
{
    match encode_delta(rects) {
        None => Err(CodecError::TooLarge),
        Some(payload) => pack(payload.as_slice()),
    }
}

/// What `unpack_delta` returns for the payload of a delta message.
pub open spec fn unpacked_delta(block: Seq<u8>) -> Result<Seq<RectView>, CodecError> {
    match unpacked(block) {
        Err(e) => Err(e),
        Ok(bytes) => match parse_delta(bytes) {
            Ok(rects) => Ok(rects),
            Err(e) => Err(CodecError::Malformed(e)),
        },
    }
}

/// Reads the payload of a delta message: decompresses it and reads the
/// rectangle list that comes out.
pub fn unpack_delta(block: &[u8]) -> (r: Result<Vec<DirtyRect>, CodecError>)
    ensures
        match r {
            Ok(rects) => unpacked_delta(block@) == Ok::<Seq<RectView>, CodecError>(rect_views(rects@))
                && forall|i: int| 0 <= i < rects@.len() ==> (#[trigger] rects@[i]).wf(),
            Err(e) => unpacked_delta(block@) == Err::<Seq<RectView>, CodecError>(e),
        },
{
    match unpack(block) {
        Err(e) => Err(e),
        Ok(bytes) => match parse_delta_payload(bytes.as_slice()) {
            Ok(rects) => Ok(rects),
            Err(e) => Err(CodecError::Malformed(e)),
        },
    }
}

} // verus!
