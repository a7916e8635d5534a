//! Packed references to the blobs of a layer file.
use vstd::prelude::*;

verus! {

/// Flag bit of a reference whose blob is stored compressed.
pub const BLOB_COMPRESSED: u64 = 1;

/// A reference to a blob in the file: the byte offset in the upper 63 bits,
/// the compressed flag in the lowest bit.
#[derive(Debug, Clone, Copy)]
pub struct BlobRef(pub u64);

impl BlobRef {
    /// The offset that the reference holds.
    pub open spec fn spec_pos(self) -> u64 {
        self.0 / 2
    }

    /// Whether the reference is flagged as compressed.
    pub open spec fn spec_compressed(self) -> bool {
        self.0 % 2 == 1
    }

    pub fn compressed(&self) -> (r: bool)
        ensures
            r == self.spec_compressed(),
    {
        let v: u64 = self.0;
        assert((v & 1 != 0) == (v % 2 == 1)) by (bit_vector);
        (v & BLOB_COMPRESSED) != 0
    }

    pub fn pos(&self) -> (r: u64)
        ensures
            r == self.spec_pos(),
    {
        let v: u64 = self.0;
        assert(v >> 1 == v / 2) by (bit_vector);
        v >> 1
    }

    /// Packs an offset and a flag. The offset keeps its lower 63 bits: one
    /// below 2^63 is held exactly.
    pub fn new(pos: u64, compressed: bool) -> (r: BlobRef)
        ensures
            r.0 as int == (pos as int * 2) % 0x1_0000_0000_0000_0000 + if compressed { 1int } else { 0int },
            r.spec_compressed() == compressed,
            pos < 0x8000_0000_0000_0000 ==> r.spec_pos() == pos,
    {
        let mut blob_ref: u64 = pos << 1;
        assert(pos << 1 == (pos as int * 2) % 0x1_0000_0000_0000_0000) by (bit_vector);
        if compressed {
            let shifted: u64 = blob_ref;
            assert(shifted | 1 == shifted + 1) by (bit_vector)
                requires
                    shifted == pos << 1,
            ;
            blob_ref |= BLOB_COMPRESSED;
        }
        BlobRef(blob_ref)
    }
}

} // verus!
