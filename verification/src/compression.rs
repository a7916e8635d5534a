//! Compression of single values. A value is stored compressed only where
//! that makes it strictly shorter, and a compressed value is decompressed
//! into a buffer of the size that its frame records.
use crate::blob_io::{copy_range, MAX_BLOB_LEN};
use vstd::prelude::*;

verus! {

/// Level at which values are compressed: the default of the compressor.
pub const ZSTD_COMPRESSION_LEVEL: i32 = 0;

/// What `zstd::bulk::compress` returns for `data` at `level`: the frame, or
/// nothing where it fails.
pub uninterp spec fn zstd_compressed(data: Seq<u8>, level: i32) -> Option<Seq<u8>>;

/// What `zstd::bulk::decompress` returns for `data` with a buffer of
/// `capacity` bytes: the content, or nothing where it fails.
pub uninterp spec fn zstd_decompressed(data: Seq<u8>, capacity: usize) -> Option<Seq<u8>>;

/// What `zstd_safe::get_frame_content_size` returns for `data`.
pub uninterp spec fn zstd_frame_content_size(data: Seq<u8>) -> u64;

/// That `frame` records the length of `data` and decompresses to `data`
/// in a buffer of that length.
pub open spec fn frame_holds(frame: Seq<u8>, data: Seq<u8>) -> bool {
    &&& zstd_frame_content_size(frame) == data.len()
    &&& zstd_decompressed(frame, data.len() as usize) == Some(data)
}

/// Calls `zstd::bulk::compress`, which compresses `data` in one pass with a
/// fresh context. Assumed, and not proved: the outcome is the one named by
/// `zstd_compressed`, so that the same data and level fare the same each
/// time; a frame that comes back records the length of `data` and
/// decompresses to `data` in a buffer of that length. Nothing is assumed
/// about which data and levels succeed. A failure for want of memory is not
/// accounted for.
#[verifier::external_body]
pub(crate) fn zstd_compress(data: &[u8], level: i32) -> (r: Result<Vec<u8>, ()>)
    ensures
        match r {
            Ok(c) => zstd_compressed(data@, level) == Some(c@) && frame_holds(c@, data@),
            Err(_) => zstd_compressed(data@, level) is None,
        },
{
    match zstd::bulk::compress(data, level) {
        Ok(c) => Ok(c),
        Err(_) => Err(()),
    }
}

/// Calls `zstd::bulk::decompress`, which decompresses `data` with a fresh
/// context into a buffer of `capacity` bytes and fails where the content
/// does not fit or `data` is no frame. Assumed, and not proved: the outcome
/// is the one named by `zstd_decompressed`.
#[verifier::external_body]
pub(crate) fn zstd_decompress(data: &[u8], capacity: usize) -> (r: Result<Vec<u8>, ()>)
    requires
        capacity <= MAX_BLOB_LEN,
    ensures
        match r {
            Ok(v) => zstd_decompressed(data@, capacity) == Some(v@),
            Err(_) => zstd_decompressed(data@, capacity) is None,
        },
{
    match zstd::bulk::decompress(data, capacity) {
        Ok(v) => Ok(v),
        Err(_) => Err(()),
    }
}

/// Calls `zstd_safe::get_frame_content_size`, which reads the content size
/// from the header of the frame at the start of `data`, or gives one of two
/// values near `u64::MAX` where the header records none or is malformed.
/// Assumed, and not proved: the number is the one named by
/// `zstd_frame_content_size`.
#[verifier::external_body]
pub(crate) fn zstd_content_size(data: &[u8]) -> (r: u64)
    ensures
        r == zstd_frame_content_size(data@),
{
    zstd_safe::get_frame_content_size(data)
}

/// How a value is stored, given what compressing it gave: compressed where
/// that is strictly shorter, raw otherwise.
pub open spec fn stored_form(raw: Seq<u8>, compressed: Option<Seq<u8>>) -> (Seq<u8>, bool) {
    match compressed {
        Some(c) => if c.len() < raw.len() {
            (c, true)
        } else {
            (raw, false)
        },
        None => (raw, false),
    }
}

/// A value is stored compressed if and only if compressing it gave
/// something strictly shorter than the value; the stored bytes are then
/// the compressed ones, and the value itself otherwise.
pub proof fn lemma_compressed_iff_strictly_shorter(raw: Seq<u8>, compressed: Option<Seq<u8>>)
    ensures
        stored_form(raw, compressed).1 <==> (compressed matches Some(c) && c.len() < raw.len()),
        stored_form(raw, compressed).1 ==> compressed == Some(stored_form(raw, compressed).0),
        !stored_form(raw, compressed).1 ==> stored_form(raw, compressed).0 == raw,
        stored_form(raw, compressed).0.len() <= raw.len(),
{
}

/// Chooses the bytes to store for `raw` and says whether they are the
/// compressed ones. They are if and only if a compressed form was given and
/// is strictly shorter than `raw`.
pub fn choose_encoding(raw: &[u8], compressed: Option<Vec<u8>>) -> (r: (Vec<u8>, bool))
    ensures
        (r.0@, r.1) == stored_form(
            raw@,
            match compressed {
                Some(c) => Some(c@),
                None => None,
            },
        ),
        r.1 <==> (compressed matches Some(c) && c@.len() < raw@.len()),
        r.0@.len() <= raw@.len(),
{
    match compressed {
        Some(c) => {
            if c.len() < raw.len() {
                (c, true)
            } else {
                (copy_range(raw, 0, raw.len()), false)
            }
        },
        None => (copy_range(raw, 0, raw.len()), false),
    }
}

/// The buffer size with which a frame of recorded content size `size` is
/// decompressed: `size` itself where it is at most `MAX_BLOB_LEN`, none
/// otherwise.
pub open spec fn spec_capacity_for(size: u64) -> Option<usize> {
    if size <= MAX_BLOB_LEN {
        Some(size as usize)
    } else {
        None
    }
}

/// The buffer size for a frame whose header records `size`. There is none
/// where `size` exceeds the longest value that a file holds, which covers
/// the two values that stand for an unknown size and a malformed header.
pub fn capacity_for(size: u64) -> (r: Option<usize>)
    ensures
        r == spec_capacity_for(size),
{
    if size <= MAX_BLOB_LEN as u64 {
        Some(size as usize)
    } else {
        None
    }
}

/// The value that stored bytes stand for: themselves where they are raw,
/// their decompressed content where they are compressed and decompress.
pub open spec fn decoded(stored: Seq<u8>, compressed: bool) -> Option<Seq<u8>> {
    if !compressed {
        Some(stored)
    } else {
        match spec_capacity_for(zstd_frame_content_size(stored)) {
            Some(capacity) => zstd_decompressed(stored, capacity),
            None => None,
        }
    }
}

/// Gives back the value that `stored` stands for, or nothing where it is
/// flagged as compressed and does not decompress.
pub fn decode(stored: Vec<u8>, compressed: bool) -> (r: Option<Vec<u8>>)
    ensures
        match decoded(stored@, compressed) {
            Some(v) => r matches Some(out) && out@ == v,
            None => r is None,
        },
{
    if !compressed {
        return Some(stored);
    }
    match capacity_for(zstd_content_size(stored.as_slice())) {
        Some(capacity) => match zstd_decompress(stored.as_slice(), capacity) {
            Ok(v) => Some(v),
            Err(_) => None,
        },
        None => None,
    }
}

/// A value is decoded from the form in which it is stored, whether that is
/// raw or a frame that holds it.
pub proof fn lemma_decoded_stored_form(raw: Seq<u8>, compressed: Option<Seq<u8>>)
    requires
        raw.len() <= MAX_BLOB_LEN,
        compressed matches Some(c) ==> frame_holds(c, raw),
    ensures
        decoded(stored_form(raw, compressed).0, stored_form(raw, compressed).1) == Some(raw),
{
}

} // verus!
