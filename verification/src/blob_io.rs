//! Length-prefixed blobs. A blob shorter than 128 bytes follows one byte
//! that holds its length. A longer one follows four bytes that hold its
//! length, most significant byte first, with the highest bit set.
use crate::be_bytes::{be32, get_u32, lemma_u32_at_be32, put_u32, u32_at};
use crate::error::LayerError;
use crate::summary::PAGE_SZ;
use vstd::prelude::*;

verus! {

/// Length of the longest blob that the format holds.
pub const MAX_BLOB_LEN: usize = 0x7fff_ffff;

/// The bytes that announce a blob of `len` bytes.
pub open spec fn blob_header(len: int) -> Seq<u8> {
    if len < 0x80 {
        seq![len as u8]
    } else {
        be32((len + 0x8000_0000) as u32)
    }
}

/// A blob as a file holds it: its header, then its bytes.
pub open spec fn blob_record(data: Seq<u8>) -> Seq<u8> {
    blob_header(data.len() as int) + data
}

/// The blob whose header stands at `off`, if the bytes from `off` on hold a
/// whole one.
pub open spec fn blob_at(file: Seq<u8>, off: int) -> Option<Seq<u8>> {
    if off < 0 || off >= file.len() {
        None
    } else if file[off] < 0x80 {
        let len = file[off] as int;
        if off + 1 + len <= file.len() {
            Some(file.subrange(off + 1, off + 1 + len))
        } else {
            None
        }
    } else if off + 4 <= file.len() {
        let len = u32_at(file, off) as int - 0x8000_0000;
        if off + 4 + len <= file.len() {
            Some(file.subrange(off + 4, off + 4 + len))
        } else {
            None
        }
    } else {
        None
    }
}

/// Appends the bytes of `data`.
pub fn append_bytes(buf: &mut Vec<u8>, data: &[u8])
    ensures
        final(buf)@ == old(buf)@ + data@,
{
    let mut i: usize = 0;
    while i < data.len()
        invariant
            i <= data.len(),
            buf@ == old(buf)@ + data@.subrange(0, i as int),
        decreases data.len() - i,
    {
        buf.push(data[i]);
        i += 1;
        assert(buf@ =~= old(buf)@ + data@.subrange(0, i as int));
    }
    assert(data@.subrange(0, i as int) =~= data@);
}

/// Copies the bytes of `file` from `from` up to `to`.
pub fn copy_range(file: &[u8], from: usize, to: usize) -> (out: Vec<u8>)
    requires
        from <= to <= file.len(),
    ensures
        out@ == file@.subrange(from as int, to as int),
{
    let mut out: Vec<u8> = Vec::new();
    let mut i: usize = from;
    while i < to
        invariant
            from <= i <= to <= file.len(),
            out@ == file@.subrange(from as int, i as int),
        decreases to - i,
    {
        out.push(file[i]);
        i += 1;
        assert(out@ =~= file@.subrange(from as int, i as int));
    }
    out
}

/// The least multiple of the block size that is not below `len`.
pub open spec fn round_up_to_block(len: int) -> int {
    (len + PAGE_SZ as int - 1) / (PAGE_SZ as int) * (PAGE_SZ as int)
}

/// Appends zero bytes until the length is a multiple of the block size.
pub fn pad_to_block(buf: &mut Vec<u8>)
    ensures
        final(buf)@.len() == round_up_to_block(old(buf)@.len() as int),
        final(buf)@.subrange(0, old(buf)@.len() as int) == old(buf)@,
        forall|i: int| old(buf)@.len() <= i < final(buf)@.len() ==> final(buf)@[i] == 0,
{
    assert(PAGE_SZ == 8192);
    while buf.len() % PAGE_SZ != 0
        invariant
            old(buf)@.len() <= buf@.len() <= round_up_to_block(old(buf)@.len() as int),
            buf@.subrange(0, old(buf)@.len() as int) == old(buf)@,
            forall|i: int| old(buf)@.len() <= i < buf@.len() ==> buf@[i] == 0,
        decreases round_up_to_block(old(buf)@.len() as int) - buf@.len(),
    {
        let ghost before = buf@;
        buf.push(0);
        assert(buf@.subrange(0, old(buf)@.len() as int) =~= before.subrange(
            0,
            old(buf)@.len() as int,
        ));
    }
    assert(buf@.subrange(0, old(buf)@.len() as int) =~= old(buf)@) by {
        assert(buf@.len() >= old(buf)@.len());
    }
}

/// Appends `data` as a blob and returns the offset of its header: the
/// length that `buf` had.
pub fn append_blob(buf: &mut Vec<u8>, data: &[u8]) -> (off: usize)
    requires
        data.len() <= MAX_BLOB_LEN,
    ensures
        off == old(buf)@.len(),
        final(buf)@ == old(buf)@ + blob_record(data@),
{
    let off = buf.len();
    let len = data.len();
    if len < 0x80 {
        buf.push(len as u8);
    } else {
        put_u32(buf, (len + 0x8000_0000) as u32);
    }
    append_bytes(buf, data);
    assert(buf@ =~= old(buf)@ + blob_record(data@));
    off
}

/// Reads the blob whose header stands at `off`. Fails with `BlobRead` and
/// the offset when no whole blob stands there.
pub fn read_blob(file: &[u8], off: u64) -> (r: Result<Vec<u8>, LayerError>)
    ensures
        match blob_at(file@, off as int) {
            Some(b) => r matches Ok(v) && v@ == b,
            None => r == Err::<Vec<u8>, LayerError>(LayerError::BlobRead { offset: off }),
        },
{
    let n = file.len();
    if off >= n as u64 {
        return Err(LayerError::BlobRead { offset: off });
    }
    let at = off as usize;
    let first = file[at];
    if first < 0x80 {
        let len = first as usize;
        if len > n - at - 1 {
            return Err(LayerError::BlobRead { offset: off });
        }
        Ok(copy_range(file, at + 1, at + 1 + len))
    } else {
        if 4 > n - at {
            return Err(LayerError::BlobRead { offset: off });
        }
        let word = get_u32(file, at);
        let len = (word - 0x8000_0000) as usize;
        if len > n - at - 4 {
            return Err(LayerError::BlobRead { offset: off });
        }
        Ok(copy_range(file, at + 4, at + 4 + len))
    }
}

/// A blob is read back from where it was written, whatever stands before
/// and after it.
pub proof fn lemma_blob_at_record(pre: Seq<u8>, data: Seq<u8>, post: Seq<u8>)
    requires
        data.len() <= MAX_BLOB_LEN,
    ensures
        blob_at(pre + blob_record(data) + post, pre.len() as int) == Some(data),
{
    let file = pre + blob_record(data) + post;
    let off = pre.len() as int;
    let len = data.len() as int;
    if len < 0x80 {
        assert(file[off] == len as u8);
        assert(file.subrange(off + 1, off + 1 + len) =~= data);
    } else {
        let word = (len + 0x8000_0000) as u32;
        assert(file.subrange(off, off + 4) =~= be32(word));
        lemma_u32_at_be32(file, off, word);
        assert(file[off] == be32(word)[0]);
        assert(file.subrange(off + 4, off + 4 + len) =~= data);
    }
}

/// A blob that a file holds at `off` is held there by every file that is at
/// least as long and has the same bytes from `off` on.
pub proof fn lemma_blob_at_agree(f1: Seq<u8>, f2: Seq<u8>, off: int)
    requires
        blob_at(f1, off) is Some,
        f1.len() <= f2.len(),
        forall|i: int| off <= i < f1.len() ==> f1[i] == f2[i],
    ensures
        blob_at(f2, off) == blob_at(f1, off),
{
    if f1[off] < 0x80 {
        let len = f1[off] as int;
        assert(f2[off] == f1[off]);
        assert(f2.subrange(off + 1, off + 1 + len) =~= f1.subrange(off + 1, off + 1 + len));
    } else {
        let len = u32_at(f1, off) as int - 0x8000_0000;
        assert(f2[off] == f1[off]);
        assert(f2[off + 1] == f1[off + 1]);
        assert(f2[off + 2] == f1[off + 2]);
        assert(f2[off + 3] == f1[off + 3]);
        assert(f2.subrange(off + 4, off + 4 + len) =~= f1.subrange(off + 4, off + 4 + len));
    }
}

} // verus!
