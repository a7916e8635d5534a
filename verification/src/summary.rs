//! The summary: the fixed header in the first block of a layer file.
use crate::be_bytes::{
    be128, be16, be32, be64, get_u128, get_u16, get_u32, get_u64, lemma_be_lengths,
    lemma_u128_at_be128, lemma_u16_at_be16, lemma_u32_at_be32,
    lemma_u64_at_be64, put_u128, put_u16, put_u32, put_u64, u128_at, u16_at, u32_at, u64_at,
};
use crate::error::LayerError;
use crate::key::{Key, KeyRange, Lsn, TenantId, TimelineId};
use vstd::prelude::*;

verus! {

/// Magic number of an image layer file.
pub const IMAGE_FILE_MAGIC: u16 = 0x5A60;

/// Version of the file format that this library reads and writes.
pub const STORAGE_FORMAT_VERSION: u16 = 3;

/// Size of a block of a layer file.
pub const PAGE_SZ: usize = 8192;

/// Number of bytes that a summary takes at the start of the first block.
pub const SUMMARY_LEN: usize = 88;

/// Header at the start of the file. The values follow from block 1 on, the
/// index from block `index_start_blk` on.
#[derive(Debug, Clone, Copy, PartialEq, Eq, Structural)]
pub struct Summary {
    /// Always `IMAGE_FILE_MAGIC` in a file of this format.
    pub magic: u16,
    pub format_version: u16,
    pub tenantid: TenantId,
    pub timelineid: TimelineId,
    pub key_range: KeyRange,
    pub lsn: Lsn,
    /// Block at which the index begins.
    pub index_start_blk: u32,
    /// Block of the index root, counted from `index_start_blk`.
    pub index_root_blk: u32,
}

impl Summary {
    /// The bytes of the summary as a file holds them: each field in turn,
    /// numbers most significant byte first.
    pub open spec fn spec_ser(self) -> Seq<u8> {
        be16(self.magic) + be16(self.format_version) + be128(self.tenantid.0) + be128(
            self.timelineid.0,
        ) + self.key_range.start.bytes() + self.key_range.end.bytes() + be64(self.lsn.0) + be32(
            self.index_start_blk,
        ) + be32(self.index_root_blk)
    }

    /// The summary that the first bytes of `s` spell.
    pub open spec fn spec_des(s: Seq<u8>) -> Summary {
        Summary {
            magic: u16_at(s, 0),
            format_version: u16_at(s, 2),
            tenantid: TenantId(u128_at(s, 4)),
            timelineid: TimelineId(u128_at(s, 20)),
            key_range: KeyRange { start: Key::at(s, 36), end: Key::at(s, 54) },
            lsn: Lsn(u64_at(s, 72)),
            index_start_blk: u32_at(s, 80),
            index_root_blk: u32_at(s, 84),
        }
    }

    /// Whether the summary has the magic number and the format version of
    /// this library.
    pub open spec fn spec_is_current(self) -> bool {
        self.magic == IMAGE_FILE_MAGIC && self.format_version == STORAGE_FORMAT_VERSION
    }

    /// Whether the summary has the magic number and the format version of
    /// this library.
    pub fn is_current(&self) -> (r: bool)
        ensures
            r == self.spec_is_current(),
    {
        self.magic == IMAGE_FILE_MAGIC && self.format_version == STORAGE_FORMAT_VERSION
    }

    /// The bytes of the summary.
    pub fn ser(&self) -> (out: Vec<u8>)
        ensures
            out@ == self.spec_ser(),
            out@.len() == SUMMARY_LEN,
    {
        let mut out: Vec<u8> = Vec::new();
        put_u16(&mut out, self.magic);
        assert(out@ =~= be16(self.magic));
        put_u16(&mut out, self.format_version);
        put_u128(&mut out, self.tenantid.0);
        put_u128(&mut out, self.timelineid.0);
        self.key_range.start.write_to(&mut out);
        self.key_range.end.write_to(&mut out);
        put_u64(&mut out, self.lsn.0);
        put_u32(&mut out, self.index_start_blk);
        put_u32(&mut out, self.index_root_blk);
        proof {
            Summary::lemma_des_ser(*self, Seq::empty());
        }
        out
    }

    /// Reads a summary from the start of `buf`. Fails with `Truncated` when
    /// `buf` is shorter than a summary, and on no other input.
    pub fn des_prefix(buf: &[u8]) -> (r: Result<Summary, LayerError>)
        ensures
            buf@.len() >= SUMMARY_LEN ==> r == Ok::<Summary, LayerError>(Summary::spec_des(buf@)),
            buf@.len() < SUMMARY_LEN ==> r == Err::<Summary, LayerError>(LayerError::Truncated),
    {
        if buf.len() < SUMMARY_LEN {
            return Err(LayerError::Truncated);
        }
        Ok(
            Summary {
                magic: get_u16(buf, 0),
                format_version: get_u16(buf, 2),
                tenantid: TenantId(get_u128(buf, 4)),
                timelineid: TimelineId(get_u128(buf, 20)),
                key_range: KeyRange { start: Key::read_from(buf, 36), end: Key::read_from(buf, 54) },
                lsn: Lsn(get_u64(buf, 72)),
                index_start_blk: get_u32(buf, 80),
                index_root_blk: get_u32(buf, 84),
            },
        )
    }

    /// A summary is read back from its bytes, whatever follows them.
    #[verifier::spinoff_prover]
    pub proof fn lemma_des_ser(s: Summary, rest: Seq<u8>)
        ensures
            s.spec_ser().len() == SUMMARY_LEN,
            Summary::spec_des(s.spec_ser() + rest) == s,
    {
        let f = s.spec_ser() + rest;
        lemma_be_lengths(s.magic, s.index_start_blk, s.lsn.0, s.tenantid.0);
        lemma_be_lengths(s.format_version, s.index_root_blk, s.lsn.0, s.timelineid.0);
        assert(s.key_range.start.bytes().len() == 18);
        assert(s.key_range.end.bytes().len() == 18);
        lemma_fields_of_concat(
            be16(s.magic),
            be16(s.format_version),
            be128(s.tenantid.0),
            be128(s.timelineid.0),
            s.key_range.start.bytes(),
            s.key_range.end.bytes(),
            be64(s.lsn.0),
            be32(s.index_start_blk),
            be32(s.index_root_blk),
            rest,
        );
        lemma_u16_at_be16(f, 0, s.magic);
        lemma_u16_at_be16(f, 2, s.format_version);
        lemma_u128_at_be128(f, 4, s.tenantid.0);
        lemma_u128_at_be128(f, 20, s.timelineid.0);
        Key::lemma_at_bytes(f, 36, s.key_range.start);
        Key::lemma_at_bytes(f, 54, s.key_range.end);
        lemma_u64_at_be64(f, 72, s.lsn.0);
        lemma_u32_at_be32(f, 80, s.index_start_blk);
        lemma_u32_at_be32(f, 84, s.index_root_blk);
    }
}

/// Where each field of a summary stands in the bytes that hold them in turn.
proof fn lemma_fields_of_concat(
    magic: Seq<u8>,
    version: Seq<u8>,
    tenant: Seq<u8>,
    timeline: Seq<u8>,
    start: Seq<u8>,
    end: Seq<u8>,
    lsn: Seq<u8>,
    first_blk: Seq<u8>,
    root_blk: Seq<u8>,
    rest: Seq<u8>,
)
    requires
        magic.len() == 2,
        version.len() == 2,
        tenant.len() == 16,
        timeline.len() == 16,
        start.len() == 18,
        end.len() == 18,
        lsn.len() == 8,
        first_blk.len() == 4,
        root_blk.len() == 4,
    ensures
        ({
            let f = (magic + version + tenant + timeline + start + end + lsn + first_blk + root_blk) + rest;
            &&& (magic + version + tenant + timeline + start + end + lsn + first_blk + root_blk).len() == 88
            &&& f.subrange(0, 2) == magic
            &&& f.subrange(2, 4) == version
            &&& f.subrange(4, 20) == tenant
            &&& f.subrange(20, 36) == timeline
            &&& f.subrange(36, 54) == start
            &&& f.subrange(54, 72) == end
            &&& f.subrange(72, 80) == lsn
            &&& f.subrange(80, 84) == first_blk
            &&& f.subrange(84, 88) == root_blk
        }),
{
    let f = (magic + version + tenant + timeline + start + end + lsn + first_blk + root_blk) + rest;
    assert(f.subrange(0, 2) =~= magic);
    assert(f.subrange(2, 4) =~= version);
    assert(f.subrange(4, 20) =~= tenant);
    assert(f.subrange(20, 36) =~= timeline);
    assert(f.subrange(36, 54) =~= start);
    assert(f.subrange(54, 72) =~= end);
    assert(f.subrange(72, 80) =~= lsn);
    assert(f.subrange(80, 84) =~= first_blk);
    assert(f.subrange(84, 88) =~= root_blk);
}

} // verus!
