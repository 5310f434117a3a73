//! The Snappy compression of the `snap` crate.

use crate::varint::{uvi_leading, uvi_value};
use snap::{read::FrameDecoder, write::FrameEncoder};
use std::io::{Cursor, Read, Write};
use vstd::prelude::*;

verus! {

/// The longest input that is framed as a single block.
pub const MAX_BLOCK_SIZE: usize = 65_536;

/// The most bytes that a frame may be asked to decompress to.
pub const MAX_FRAME_LEN: usize = 10 * 1_048_576;

/// The most bytes that the compression of `len` bytes can take, or zero where
/// that does not fit into 32 bits.
pub open spec fn max_compressed(len: nat) -> nat {
    if len > u32::MAX || 32 + len + len / 6 > u32::MAX {
        0
    } else {
        32 + len + len / 6
    }
}

/// `snap::raw::max_compress_len` gives the bound that the Snappy format has for
/// the compression of `input_len` bytes, or zero where that is too large.
pub assume_specification[ snap::raw::max_compress_len ](input_len: usize) -> (max: usize)
    ensures
        max as nat == max_compressed(input_len as nat),
;

/// The Snappy frame stream that `snap::write::FrameEncoder` makes of some bytes.
pub uninterp spec fn snappy_frame(bytes: Seq<u8>) -> Seq<u8>;

/// What `snap::read::FrameDecoder` makes of the first `limit` bytes of `source`
/// when it is asked for `length` bytes: those bytes, and how many of `source` it
/// has read for them.
pub uninterp spec fn frame_read(source: Seq<u8>, limit: nat, length: nat) -> Option<
    (Seq<u8>, nat),
>;

/// Whether reading a frame stream gives `bytes` back, whatever follows the stream
/// and however far beyond it the reader may go.
pub open spec fn reads_back(frame: Seq<u8>, bytes: Seq<u8>) -> bool {
    forall|rest: Seq<u8>, limit: nat|
        limit >= frame.len() ==> #[trigger] frame_read(frame + rest, limit, bytes.len()) == Some(
            (bytes, frame.len()),
        )
}

/// Writes `bytes` through `snap::write::FrameEncoder` into a vector and flushes
/// it. For input of one block the stream is a header of 10 bytes and a chunk that
/// is at most 8 bytes longer than the input; no input makes no stream. Reading the
/// stream, whatever follows it, gives the input back and reads just the stream.
#[verifier::external_body]
pub(crate) fn frame_encode(bytes: &[u8]) -> (result: Result<Vec<u8>, std::io::Error>)
    requires
        bytes@.len() <= MAX_BLOCK_SIZE,
    ensures
        result is Ok,
        match result {
            Ok(frame) => {
                &&& frame@ == snappy_frame(bytes@)
                &&& frame@.len() <= 18 + bytes@.len()
                &&& bytes@.len() == 0 ==> frame@.len() == 0
                &&& reads_back(frame@, bytes@)
            },
            Err(_) => true,
        },
{
    let mut writer = FrameEncoder::new(Vec::new());
    writer.write_all(bytes)?;
    writer.flush()?;
    Ok(writer.get_ref().clone())
}

/// Reads `length` bytes through `snap::read::FrameDecoder` from the first `limit`
/// bytes of `source`. Where that succeeds, the bytes come with the number of bytes
/// of `source` that were read.
#[verifier::external_body]
pub(crate) fn frame_decode(source: &[u8], limit: u64, length: usize) -> (result: Result<
    (Vec<u8>, u64),
    std::io::Error,
>)
    requires
        length <= MAX_FRAME_LEN,
    ensures
        match result {
            Ok((bytes, used)) => {
                &&& frame_read(source@, limit as nat, length as nat) == Some(
                    (bytes@, used as nat),
                )
                &&& bytes@.len() == length
                &&& used <= source@.len()
                &&& used <= limit
            },
            Err(_) => frame_read(source@, limit as nat, length as nat) is None,
        },
{
    let limit_reader = Cursor::new(source).take(limit);
    let mut reader = FrameDecoder::new(limit_reader);
    let mut bytes = vec![0; length];
    reader.read_exact(&mut bytes)?;
    let used = reader.get_ref().get_ref().position();
    Ok((bytes, used))
}

/// The error of the `snap` crate.
#[verifier::external_type_specification]
#[verifier::external_body]
pub struct ExSnapError(snap::Error);

/// How long the decompression of a Snappy block is, as the number at its start has it. That
/// has at most five bytes, and fits into 32 bits; an empty block stands for nothing.
pub open spec fn decompressed_len(input: Seq<u8>) -> Option<nat> {
    let leading = uvi_leading(input);
    if input.len() == 0 {
        Some(0)
    } else if leading < input.len() && leading < 5 && uvi_value(input.take((leading + 1) as int))
        <= u32::MAX {
        Some(uvi_value(input.take((leading + 1) as int)))
    } else {
        None
    }
}

/// `snap::raw::decompress_len` reads the number at the start of a Snappy block.
pub assume_specification[ snap::raw::decompress_len ](input: &[u8]) -> (result: Result<
    usize,
    snap::Error,
>)
    ensures
        match result {
            Ok(len) => decompressed_len(input@) == Some(len as nat),
            Err(_) => decompressed_len(input@) is None,
        },
;

/// What `snap::raw::Decoder::decompress_vec` makes of some bytes.
pub uninterp spec fn snappy_decompress(input: Seq<u8>) -> Option<Seq<u8>>;

/// What `snap::raw::Encoder::compress_vec` makes of some bytes.
pub uninterp spec fn snappy_compress(input: Seq<u8>) -> Seq<u8>;

/// Calls `snap::raw::Decoder::decompress_vec` of a new decoder. What it returns is as long
/// as the number at the start of the block says. No bytes at all are no block.
#[verifier::external_body]
pub(crate) fn decompress(input: &[u8]) -> (result: Result<Vec<u8>, snap::Error>)
    ensures
        match result {
            Ok(bytes) => {
                &&& input@.len() > 0
                &&& snappy_decompress(input@) == Some(bytes@)
                &&& decompressed_len(input@) == Some(bytes@.len())
            },
            Err(_) => snappy_decompress(input@) is None,
        },
{
    snap::raw::Decoder::new().decompress_vec(input)
}

/// Calls `snap::raw::Encoder::compress_vec` of a new encoder. It fails for an input whose
/// compression could take more than 32 bits can count. Otherwise decompressing what it
/// returns gives the input back.
#[verifier::external_body]
pub(crate) fn compress(input: &[u8]) -> (result: Result<Vec<u8>, snap::Error>)
    ensures
        match result {
            Ok(bytes) => {
                &&& max_compressed(input@.len()) > 0
                &&& bytes@ == snappy_compress(input@)
                &&& bytes@.len() <= max_compressed(input@.len())
                &&& decompressed_len(bytes@) == Some(input@.len())
                &&& snappy_decompress(bytes@) == Some(input@)
            },
            Err(_) => max_compressed(input@.len()) == 0,
        },
{
    snap::raw::Encoder::new().compress_vec(input)
}

} // verus!
