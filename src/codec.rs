//! The compressed on-disk form of a store's text encoding.

use vstd::prelude::*;
use vstd::string::StringSliceAdditionalSpecFns;
use vstd::utf8::{encode_utf8, encode_utf8_decode_utf8, encode_utf8_valid_utf8, valid_utf8};

verus! {

#[verifier::external_type_specification]
#[verifier::external_body]
pub struct ExIoError(std::io::Error);

/// Whether zstd compresses `data` at `level` without error.
pub uninterp spec fn zstd_compress_ok(data: Seq<u8>, level: int) -> bool;

/// The zstd frame that compresses `data` at `level`.
pub uninterp spec fn zstd_compressed(data: Seq<u8>, level: int) -> Seq<u8>;

/// Whether zstd reads `data` as a sequence of well-formed frames.
pub uninterp spec fn zstd_frames_valid(data: Seq<u8>) -> bool;

/// The bytes that the zstd frames `data` hold.
pub uninterp spec fn zstd_decompressed(data: Seq<u8>) -> Seq<u8>;

/// Relies on `zstd::bulk::compress`: it succeeds as zstd decides for these
/// arguments, and then gives the zstd frame of `data` at `level`, which
/// decompresses to `data`.
#[verifier::external_body]
fn zstd_compress(data: &[u8], level: i32) -> (r: Result<Vec<u8>, std::io::Error>)
    ensures
        r is Ok <==> zstd_compress_ok(data@, level as int),
        r matches Ok(v) ==> v@ == zstd_compressed(data@, level as int) && zstd_frames_valid(v@)
            && zstd_decompressed(v@) == data@,
{
    zstd::bulk::compress(data, level)
}

/// Relies on `zstd::bulk::decompress`: it succeeds exactly where zstd reads
/// `data` as well-formed frames that hold at most `capacity` bytes, and then
/// gives what they hold.
#[verifier::external_body]
fn zstd_decompress(data: &[u8], capacity: usize) -> (r: Result<Vec<u8>, std::io::Error>)
    ensures
        r matches Ok(v) ==> zstd_frames_valid(data@) && v@ == zstd_decompressed(data@) && v@.len() <= capacity,
        zstd_decompressed(data@).len() > capacity ==> r is Err,
        zstd_frames_valid(data@) && zstd_decompressed(data@).len() <= capacity ==> r is Ok,
{
    zstd::bulk::decompress(data, capacity)
}

/// Relies on `String::from_utf8`: the text whose UTF-8 encoding `data` is,
/// exactly where `data` is valid UTF-8.
#[verifier::external_body]
fn text_from_utf8(data: Vec<u8>) -> (r: Option<String>)
    ensures
        r is Some <==> valid_utf8(data@),
        r matches Some(s) ==> encode_utf8(s@) == data@,
{
    String::from_utf8(data).ok()
}

/// The compression level of snapshots.
pub const LEVEL: i32 = 5;

/// How many times the size of a snapshot file its text may be.
pub const EXPANSION: u64 = 10;

/// Why a snapshot could not be written or read.
#[derive(Debug, Clone, Copy, PartialEq, Eq, Structural)]
pub enum PersistenceError {
    /// The buffer for the text of a file of this size cannot be addressed.
    CapacityOverflow,
    /// The compressor failed.
    Compression,
    /// The bytes are not a zstd frame, or they hold more than the buffer takes.
    Decompression,
    /// The decompressed bytes are not UTF-8 text.
    Encoding,
}

/// The size of the buffer that the text of a snapshot file of `file_len`
/// bytes is read into: ten times the file's size, where that can be addressed.
pub fn decompression_capacity(file_len: u64) -> (r: Option<usize>)
    ensures
        r == if file_len * EXPANSION <= usize::MAX { Some((file_len * EXPANSION) as usize) } else { None::<usize> },
{
    let limit = (usize::MAX / 10) as u64;
    if file_len <= limit {
        Some((file_len as usize) * 10)
    } else {
        None
    }
}

/// Compresses the text encoding of a store. The frame decompresses to the
/// text's UTF-8 bytes.
pub fn compress_snapshot(text: &str) -> (r: Result<Vec<u8>, PersistenceError>)
    ensures
        r is Ok <==> zstd_compress_ok(text.spec_bytes(), LEVEL as int),
        match r {
            Ok(v) => v@ == zstd_compressed(text.spec_bytes(), LEVEL as int) && zstd_frames_valid(v@)
                && zstd_decompressed(v@) == encode_utf8(text@),
            Err(e) => e == PersistenceError::Compression,
        },
{
    match zstd_compress(text.as_bytes(), LEVEL) {
        Ok(v) => Ok(v),
        Err(_) => Err(PersistenceError::Compression),
    }
}

/// Whether a snapshot file of `file_len` bytes that holds `raw` can be read:
/// its buffer can be addressed, `raw` is well-formed zstd, what it holds fits
/// the buffer, and that is UTF-8 text.
pub open spec fn snapshot_readable(raw: Seq<u8>, file_len: u64) -> bool {
    &&& file_len * EXPANSION <= usize::MAX
    &&& zstd_frames_valid(raw)
    &&& zstd_decompressed(raw).len() <= file_len * EXPANSION
    &&& valid_utf8(zstd_decompressed(raw))
}

/// The text that a snapshot file of `file_len` bytes, holding `raw`, encodes.
pub fn decode_snapshot(raw: &[u8], file_len: u64) -> (r: Result<String, PersistenceError>)
    ensures
        r is Ok <==> snapshot_readable(raw@, file_len),
        r matches Ok(s) ==> encode_utf8(s@) == zstd_decompressed(raw@),
        (file_len * EXPANSION > usize::MAX) ==> r == Err::<String, PersistenceError>(PersistenceError::CapacityOverflow),
        (file_len * EXPANSION <= usize::MAX && zstd_decompressed(raw@).len() > file_len * EXPANSION)
            ==> r == Err::<String, PersistenceError>(PersistenceError::Decompression),
        (file_len * EXPANSION <= usize::MAX && !zstd_frames_valid(raw@))
            ==> r == Err::<String, PersistenceError>(PersistenceError::Decompression),
        (file_len * EXPANSION <= usize::MAX && zstd_frames_valid(raw@) && zstd_decompressed(raw@).len() <= file_len * EXPANSION
            && !valid_utf8(zstd_decompressed(raw@))) ==> r == Err::<String, PersistenceError>(PersistenceError::Encoding),
{
    let capacity = match decompression_capacity(file_len) {
        Some(c) => c,
        None => return Err(PersistenceError::CapacityOverflow),
    };
    let bytes = match zstd_decompress(raw, capacity) {
        Ok(b) => b,
        Err(_) => return Err(PersistenceError::Decompression),
    };
    match text_from_utf8(bytes) {
        Some(s) => Ok(s),
        None => Err(PersistenceError::Encoding),
    }
}

/// A compressed snapshot reads back as the text it was made from, where the
/// file's buffer (ten times its size) holds that text's UTF-8 bytes.
pub proof fn lemma_snapshot_round_trip(text: Seq<char>, packed: Seq<u8>, file_len: u64, back: Seq<char>)
    requires
        zstd_frames_valid(packed),
        zstd_decompressed(packed) == encode_utf8(text),
        encode_utf8(text).len() <= file_len * EXPANSION,
        file_len * EXPANSION <= usize::MAX,
    ensures
        snapshot_readable(packed, file_len),
        encode_utf8(back) == zstd_decompressed(packed) ==> back == text,
{
    encode_utf8_valid_utf8(text);
    if encode_utf8(back) == zstd_decompressed(packed) {
        encode_utf8_decode_utf8(back);
        encode_utf8_decode_utf8(text);
    }
}

} // verus!
