//! Building a layer file: the values are appended in increasing key order,
//! and the index and the summary are written when the file is finished.
use crate::blob_io::{
    append_blob, append_bytes, blob_at, blob_record, lemma_blob_at_agree, lemma_blob_at_record,
    pad_to_block, round_up_to_block, MAX_BLOB_LEN,
};
use crate::blob_ref::BlobRef;
use crate::compression::{
    choose_encoding, lemma_decoded_stored_form, stored_form, zstd_compress, zstd_compressed,
    ZSTD_COMPRESSION_LEVEL,
};
use crate::be_bytes::{lemma_be64_u64_at, lemma_u64_at_be64, u64_at};
use crate::disk_index::{
    entry_key, entry_value, index_count, lemma_entry_agrees, lemma_round_up_bounds,
    IndexBuilder, ENTRY_SIZE,
};
use crate::error::LayerError;
use crate::key::{Key, KeyRange, Lsn, TenantId, TimelineId};
use crate::layer::{
    holds_contents, lemma_lookup_misses, lookup, stored_value, value_at, ImageLayer,
    ImageLayerInner, Origin,
};
use crate::summary::{Summary, IMAGE_FILE_MAGIC, PAGE_SZ, STORAGE_FORMAT_VERSION, SUMMARY_LEN};
use vstd::prelude::*;

verus! {

/// Where the values of a file end at the latest, so that every block number
/// of the file fits the summary.
pub const MAX_VALUES_END: u64 = 0x100_0000_0000;

/// Builds a new image layer. The images are put in with `put_image`, one for
/// every key of the key range that has a value and in increasing key order,
/// and `finish` then gives the file and its handle.
pub struct ImageLayerWriter {
    pub timelineid: TimelineId,
    pub tenantid: TenantId,
    pub key_range: KeyRange,
    pub lsn: Lsn,
    /// The file so far: the block kept for the summary, then the blobs.
    pub blob_writer: Vec<u8>,
    /// The index so far: for every key the reference to its blob.
    pub tree: IndexBuilder,
    /// Level at which values are compressed, if they are.
    pub compression_level: Option<i32>,
}

impl ImageLayerWriter {
    /// The index is well-formed, the blobs end within the bound, and every
    /// entry of the index has a key of the key range and refers to a whole
    /// blob after the first block.
    pub open spec fn wf(&self) -> bool {
        &&& self.tree.wf()
        &&& PAGE_SZ <= self.blob_writer@.len() <= MAX_VALUES_END
        &&& self.tree.count <= self.blob_writer@.len() - PAGE_SZ
        &&& forall|i: int|
            0 <= i < self.tree.count ==> {
                &&& self.key_range.spec_contains(#[trigger] self.tree.key(i))
                &&& BlobRef(self.tree.value(i)).spec_pos() >= PAGE_SZ
                &&& blob_at(
                    self.blob_writer@,
                    BlobRef(self.tree.value(i)).spec_pos() as int,
                ) is Some
            }
    }

    /// The keys that were put in, in the order in which they came, each
    /// with what the file gives for it: the image that was put in, or the
    /// error of a blob that was handed in as compressed and does not
    /// decompress.
    pub open spec fn contents(&self) -> Seq<(Key, Result<Seq<u8>, LayerError>)> {
        Seq::new(
            self.tree.count as nat,
            |i: int| (self.tree.key(i), value_at(self.blob_writer@, self.tree.value(i))),
        )
    }

    /// What compressing `img` gives in this writer: nothing where it does
    /// not compress, or where compressing fails.
    pub open spec fn compressed_form(&self, img: Seq<u8>) -> Option<Seq<u8>> {
        match self.compression_level {
            Some(level) => zstd_compressed(img, level),
            None => None,
        }
    }

    /// Whether compressing `img` fails in this writer.
    pub open spec fn spec_compress_fails(&self, img: Seq<u8>) -> bool {
        self.compression_level matches Some(level) && zstd_compressed(img, level) is None
    }

    /// Whether `img` is too long for a blob or would bring the values
    /// beyond their bound.
    pub open spec fn spec_too_large(&self, img: Seq<u8>) -> bool {
        img.len() > MAX_BLOB_LEN || self.blob_writer@.len() + img.len() + 4 > MAX_VALUES_END
    }

    /// A writer for a layer of the given identity, key range and LSN, with
    /// nothing put in yet. The first block of the file is kept for the
    /// summary.
    pub fn new(timelineid: TimelineId, tenantid: TenantId, key_range: &KeyRange, lsn: Lsn) -> (w:
        ImageLayerWriter)
        ensures
            w.wf(),
            w.timelineid == timelineid,
            w.tenantid == tenantid,
            w.key_range == *key_range,
            w.lsn == lsn,
            w.contents() == Seq::<(Key, Result<Seq<u8>, LayerError>)>::empty(),
            w.blob_writer@.len() == PAGE_SZ,
            forall|i: int| 0 <= i < PAGE_SZ ==> w.blob_writer@[i] == 0,
            w.compression_level == Some(ZSTD_COMPRESSION_LEVEL),
    {
        let mut blob_writer: Vec<u8> = Vec::new();
        let mut i: usize = 0;
        while i < PAGE_SZ
            invariant
                i <= PAGE_SZ,
                blob_writer@.len() == i,
                forall|j: int| 0 <= j < i ==> blob_writer@[j] == 0,
            decreases PAGE_SZ - i,
        {
            blob_writer.push(0);
            i += 1;
        }
        let w = ImageLayerWriter {
            timelineid,
            tenantid,
            key_range: *key_range,
            lsn,
            blob_writer,
            tree: IndexBuilder::new(),
            compression_level: Some(ZSTD_COMPRESSION_LEVEL),
        };
        assert(w.contents() =~= Seq::<(Key, Result<Seq<u8>, LayerError>)>::empty());
        w
    }

    /// Whether `key` may be put in next: it is ordered after the last key.
    pub fn accepts(&self, key: &Key) -> (r: bool)
        ensures
            r == self.tree.spec_accepts(*key),
    {
        self.tree.accepts(key)
    }

    /// Puts in the image of the next key. A key of the key range comes
    /// after the keys that were put in before. The image is stored
    /// compressed where that makes it strictly shorter. Fails with
    /// `KeyOutOfRange` for a key outside the key range, with `TooLarge` for an
    /// image that the file cannot hold, and with `Compress` where the
    /// compressor fails, and succeeds otherwise. A call that fails changes
    /// nothing.
    pub fn put_image(&mut self, key: Key, img: &[u8]) -> (r: Result<(), LayerError>)
        requires
            old(self).wf(),
            old(self).key_range.spec_contains(key) ==> old(self).tree.spec_accepts(key),
        ensures
            final(self).wf(),
            final(self).timelineid == old(self).timelineid,
            final(self).tenantid == old(self).tenantid,
            final(self).key_range == old(self).key_range,
            final(self).lsn == old(self).lsn,
            final(self).compression_level == old(self).compression_level,
            r == (if !old(self).key_range.spec_contains(key) {
                Err::<(), LayerError>(LayerError::KeyOutOfRange)
            } else if old(self).spec_too_large(img@) {
                Err::<(), LayerError>(LayerError::TooLarge)
            } else if old(self).spec_compress_fails(img@) {
                Err::<(), LayerError>(LayerError::Compress)
            } else {
                Ok::<(), LayerError>(())
            }),
            r is Err ==> *final(self) == *old(self),
            r is Ok ==> {
                let form = stored_form(img@, old(self).compressed_form(img@));
                let n = old(self).tree.count as int;
                &&& final(self).contents() == old(self).contents().push(
                    (key, Ok::<Seq<u8>, LayerError>(img@)),
                )
                &&& final(self).blob_writer@ == old(self).blob_writer@ + blob_record(form.0)
                &&& final(self).tree.count == n + 1
                &&& final(self).tree.key(n) == key
                &&& BlobRef(final(self).tree.value(n)).spec_pos() == old(self).blob_writer@.len()
                &&& BlobRef(final(self).tree.value(n)).spec_compressed() == form.1
            },
    {
        if !self.key_range.contains(&key) {
            return Err(LayerError::KeyOutOfRange);
        }
        if img.len() > MAX_BLOB_LEN || self.blob_writer.len() as u64 + img.len() as u64 + 4
            > MAX_VALUES_END {
            return Err(LayerError::TooLarge);
        }
        let compressed = match self.compression_level {
            Some(level) => match zstd_compress(img, level) {
                Ok(c) => Some(c),
                Err(_) => {
                    return Err(LayerError::Compress);
                },
            },
            None => None,
        };
        proof {
            lemma_decoded_stored_form(img@, old(self).compressed_form(img@));
        }
        self.put_image_encoded(key, img, compressed)
    }

    /// Puts in the image of the next key, given what compressing it gave,
    /// if anything. A key of the key range comes after the keys that were
    /// put in before. The compressed form is stored, and the reference
    /// flagged, if and only if it is strictly shorter than the image: the
    /// image itself is stored otherwise. Fails with `KeyOutOfRange` for a key
    /// outside the key range and with `TooLarge` for an image that the file
    /// cannot hold, and succeeds otherwise. A call that fails changes
    /// nothing.
    pub fn put_image_encoded(&mut self, key: Key, img: &[u8], compressed: Option<Vec<u8>>) -> (r:
        Result<(), LayerError>)
        requires
            old(self).wf(),
            old(self).key_range.spec_contains(key) ==> old(self).tree.spec_accepts(key),
        ensures
            final(self).wf(),
            final(self).timelineid == old(self).timelineid,
            final(self).tenantid == old(self).tenantid,
            final(self).key_range == old(self).key_range,
            final(self).lsn == old(self).lsn,
            final(self).compression_level == old(self).compression_level,
            r == (if !old(self).key_range.spec_contains(key) {
                Err::<(), LayerError>(LayerError::KeyOutOfRange)
            } else if old(self).spec_too_large(img@) {
                Err::<(), LayerError>(LayerError::TooLarge)
            } else {
                Ok::<(), LayerError>(())
            }),
            r is Err ==> *final(self) == *old(self),
            r is Ok ==> {
                let form = stored_form(
                    img@,
                    match compressed {
                        Some(c) => Some(c@),
                        None => None,
                    },
                );
                let n = old(self).tree.count as int;
                let at = old(self).blob_writer@.len() as u64;
                &&& form.1 <==> (compressed matches Some(c) && c@.len() < img@.len())
                &&& form.1 ==> (compressed matches Some(c) && form.0 == c@)
                &&& !form.1 ==> form.0 == img@
                &&& final(self).blob_writer@ == old(self).blob_writer@ + blob_record(form.0)
                &&& final(self).tree.count == n + 1
                &&& final(self).tree.key(n) == key
                &&& BlobRef(final(self).tree.value(n)).spec_pos() == at
                &&& BlobRef(final(self).tree.value(n)).spec_compressed() == form.1
                &&& final(self).contents() == old(self).contents().push(
                    (key, stored_value(form.0, form.1, at)),
                )
            },
    {
        if !self.key_range.contains(&key) {
            return Err(LayerError::KeyOutOfRange);
        }
        if img.len() > MAX_BLOB_LEN || self.blob_writer.len() as u64 + img.len() as u64 + 4
            > MAX_VALUES_END {
            return Err(LayerError::TooLarge);
        }
        let (stored, flag) = choose_encoding(img, compressed);
        let off = append_blob(&mut self.blob_writer, stored.as_slice());
        assert(self.blob_writer@.len() <= old(self).blob_writer@.len() + stored@.len() + 4);
        let blob_ref = BlobRef::new(off as u64, flag);
        assert(ENTRY_SIZE == 26 && PAGE_SZ == 8192);
        assert(self.tree.buf@.len() + 26 <= crate::disk_index::MAX_INDEX_BYTES);
        self.tree.append(&key, blob_ref.0);
        proof {
            lemma_put_extends(*old(self), *self, key, stored@, blob_ref.0);
        }
        Ok(())
    }

    /// Ends the file: pads the values to a whole number of blocks, appends
    /// the index, and writes the summary, with the two block numbers of the
    /// index, into the first block. Returns the bytes of the file and a
    /// handle for it that is not loaded. The file holds what was put in: a
    /// lookup of each key gives its image, and a lookup of any other key
    /// gives nothing.
    pub fn finish(self) -> (r: (ImageLayer, Vec<u8>))
        requires
            self.wf(),
        ensures
            r.0.origin == Origin::FromConfig,
            r.0.timelineid == self.timelineid,
            r.0.tenantid == self.tenantid,
            r.0.key_range == self.key_range,
            r.0.lsn == self.lsn,
            !r.0.inner.loaded,
            r.0.inner.file is None,
            r.0.inner.index_start_blk as int * PAGE_SZ as int == round_up_to_block(
                self.blob_writer@.len() as int,
            ),
            r.1@.len() == (r.0.inner.index_start_blk as int + r.0.inner.index_root_blk as int + 1)
                * PAGE_SZ as int,
            Summary::spec_des(r.1@) == (Summary {
                index_start_blk: r.0.inner.index_start_blk,
                index_root_blk: r.0.inner.index_root_blk,
                ..r.0.spec_expected_summary()
            }),
            r.1@.subrange(SUMMARY_LEN as int, self.blob_writer@.len() as int)
                == self.blob_writer@.subrange(SUMMARY_LEN as int, self.blob_writer@.len() as int),
            forall|i: int|
                #![trigger entry_key(r.1@, r.0.inner.index_start_blk, i)]
                #![trigger entry_value(r.1@, r.0.inner.index_start_blk, i)]
                0 <= i < self.tree.count ==> entry_key(r.1@, r.0.inner.index_start_blk, i)
                    == self.tree.key(i) && entry_value(r.1@, r.0.inner.index_start_blk, i)
                    == self.tree.value(i),
            holds_contents(
                r.1@,
                r.0.inner.index_start_blk,
                r.0.inner.index_root_blk,
                self.contents(),
            ),
    {
        assert(PAGE_SZ == 8192 && SUMMARY_LEN == 88);
        let ghost writer = self;
        let ghost values = self.blob_writer@;
        let mut file = self.blob_writer;
        pad_to_block(&mut file);
        proof {
            lemma_round_up_bounds(values.len() as int);
        }
        let ghost padded = file@;
        let index_start_blk: u32 = (file.len() / PAGE_SZ) as u32;
        let (index_root_blk, blocks) = self.tree.finish();
        append_bytes(&mut file, blocks.as_slice());
        let ghost whole = file@;
        let summary = Summary {
            magic: IMAGE_FILE_MAGIC,
            format_version: STORAGE_FORMAT_VERSION,
            tenantid: self.tenantid,
            timelineid: self.timelineid,
            key_range: self.key_range,
            lsn: self.lsn,
            index_start_blk,
            index_root_blk,
        };
        let bytes = summary.ser();
        let mut i: usize = 0;
        while i < SUMMARY_LEN
            invariant
                i <= SUMMARY_LEN,
                SUMMARY_LEN == 88,
                bytes@.len() == SUMMARY_LEN,
                file@.len() == whole.len(),
                whole.len() >= PAGE_SZ,
                PAGE_SZ == 8192,
                forall|j: int| 0 <= j < i ==> file@[j] == bytes@[j],
                forall|j: int| i <= j < whole.len() ==> file@[j] == whole[j],
            decreases SUMMARY_LEN - i,
        {
            file[i] = bytes[i];
            i += 1;
        }
        proof {
            lemma_assembled(values, padded, blocks@, whole, bytes@, file@, summary);
            lemma_finished_file(writer, file@, index_start_blk, index_root_blk, blocks@);
        }
        let layer = ImageLayer {
            origin: Origin::FromConfig,
            timelineid: self.timelineid,
            tenantid: self.tenantid,
            key_range: self.key_range,
            lsn: self.lsn,
            inner: ImageLayerInner {
                loaded: false,
                file: None,
                index_start_blk,
                index_root_blk,
            },
        };
        (layer, file)
    }
}

/// Every key that a writer holds lies in its key range.
pub proof fn lemma_keys_within_range(w: ImageLayerWriter, i: int)
    requires
        w.wf(),
        0 <= i < w.contents().len(),
    ensures
        w.key_range.spec_contains(w.contents()[i].0),
{
    assert(w.key_range.spec_contains(w.tree.key(i)));
}

/// A file that holds the contents of a writer gives nothing, and no error,
/// for a key of the key range that was never put in. Nor does it for a key
/// outside the key range: no such key is ever put in.
pub proof fn lemma_unwritten_key_is_missing(
    w: ImageLayerWriter,
    file: Seq<u8>,
    start_blk: u32,
    root_blk: u32,
    key: Key,
)
    requires
        w.wf(),
        holds_contents(file, start_blk, root_blk, w.contents()),
        !w.key_range.spec_contains(key) || forall|i: int|
            0 <= i < w.contents().len() ==> (#[trigger] w.contents()[i]).0 != key,
    ensures
        lookup(file, start_blk, root_blk, key) == Ok::<Option<Seq<u8>>, LayerError>(None),
{
    assert forall|i: int| 0 <= i < w.contents().len() implies (#[trigger] w.contents()[i]).0
        != key by {
        lemma_keys_within_range(w, i);
    }
    lemma_lookup_misses(file, start_blk, root_blk, w.contents(), key);
}

/// What appending a blob and its index entry does to a well-formed writer:
/// it stays well-formed, and its contents grow by the key and what the blob
/// stands for.
proof fn lemma_put_extends(
    before: ImageLayerWriter,
    after: ImageLayerWriter,
    key: Key,
    stored: Seq<u8>,
    word: u64,
)
    requires
        before.wf(),
        before.key_range.spec_contains(key),
        after.key_range == before.key_range,
        after.tree.wf(),
        after.tree.count == before.tree.count + 1,
        after.tree.key(before.tree.count as int) == key,
        after.tree.value(before.tree.count as int) == word,
        forall|i: int|
            0 <= i < before.tree.count ==> #[trigger] after.tree.key(i) == before.tree.key(i)
                && after.tree.value(i) == before.tree.value(i),
        after.blob_writer@ == before.blob_writer@ + blob_record(stored),
        after.blob_writer@.len() <= MAX_VALUES_END,
        stored.len() <= MAX_BLOB_LEN,
        BlobRef(word).spec_pos() == before.blob_writer@.len(),
    ensures
        after.wf(),
        after.contents() == before.contents().push(
            (
                key,
                stored_value(
                    stored,
                    BlobRef(word).spec_compressed(),
                    before.blob_writer@.len() as u64,
                ),
            ),
        ),
{
    let n = before.tree.count as int;
    let old_file = before.blob_writer@;
    let new_file = after.blob_writer@;
    assert(new_file =~= old_file + blob_record(stored) + Seq::<u8>::empty());
    lemma_blob_at_record(old_file, stored, Seq::<u8>::empty());
    assert(blob_at(new_file, old_file.len() as int) == Some(stored));
    assert(blob_record(stored).len() >= 1);
    assert forall|i: int| 0 <= i < n implies blob_at(
        new_file,
        BlobRef(#[trigger] after.tree.value(i)).spec_pos() as int,
    ) == blob_at(old_file, BlobRef(before.tree.value(i)).spec_pos() as int) by {
        assert(after.tree.key(i) == before.tree.key(i));
        assert(before.key_range.spec_contains(before.tree.key(i)));
        lemma_blob_at_agree(old_file, new_file, BlobRef(before.tree.value(i)).spec_pos() as int);
    }
    assert forall|i: int| 0 <= i < after.tree.count implies {
        &&& after.key_range.spec_contains(#[trigger] after.tree.key(i))
        &&& BlobRef(after.tree.value(i)).spec_pos() >= PAGE_SZ
        &&& blob_at(new_file, BlobRef(after.tree.value(i)).spec_pos() as int) is Some
    } by {
        if i < n {
            assert(after.tree.key(i) == before.tree.key(i));
            assert(before.key_range.spec_contains(before.tree.key(i)));
            assert(blob_at(new_file, BlobRef(after.tree.value(i)).spec_pos() as int) == blob_at(
                old_file,
                BlobRef(before.tree.value(i)).spec_pos() as int,
            ));
        }
    }
    assert forall|i: int| 0 <= i < n implies after.contents()[i] == before.contents()[i] by {
        assert(after.tree.key(i) == before.tree.key(i));
        assert(blob_at(new_file, BlobRef(after.tree.value(i)).spec_pos() as int) == blob_at(
            old_file,
            BlobRef(before.tree.value(i)).spec_pos() as int,
        ));
    }
    assert(after.contents() =~= before.contents().push(
        (
            key,
            stored_value(stored, BlobRef(word).spec_compressed(), before.blob_writer@.len() as u64),
        ),
    ));
}

/// What the bytes of a finished file are, from how they were put together:
/// the summary at the start, the values where they were, the index after the
/// padded values.
proof fn lemma_assembled(
    values: Seq<u8>,
    padded: Seq<u8>,
    blocks: Seq<u8>,
    whole: Seq<u8>,
    bytes: Seq<u8>,
    file: Seq<u8>,
    summary: Summary,
)
    requires
        88 <= values.len() <= padded.len(),
        padded.subrange(0, values.len() as int) == values,
        whole == padded + blocks,
        bytes == summary.spec_ser(),
        bytes.len() == 88,
        file.len() == whole.len(),
        forall|j: int| 0 <= j < 88 ==> file[j] == bytes[j],
        forall|j: int| 88 <= j < whole.len() ==> file[j] == whole[j],
    ensures
        Summary::spec_des(file) == summary,
        file.subrange(88, values.len() as int) == values.subrange(88, values.len() as int),
        file.subrange(padded.len() as int, file.len() as int) == blocks,
{
    let rest = file.subrange(88, file.len() as int);
    assert(file =~= bytes + rest);
    Summary::lemma_des_ser(summary, rest);
    assert(file.subrange(88, values.len() as int) =~= values.subrange(88, values.len() as int))
        by {
        assert forall|j: int| 88 <= j < values.len() implies file[j] == values[j] by {
            assert(padded.subrange(0, values.len() as int)[j] == padded[j]);
        }
    }
    assert(file.subrange(padded.len() as int, file.len() as int) =~= blocks);
}

/// A number that stands in a piece of a file stands in the file.
proof fn lemma_count_in_file(file: Seq<u8>, blocks: Seq<u8>, base: int, at: int, count: u64)
    requires
        0 <= base <= file.len(),
        file.subrange(base, file.len() as int) == blocks,
        0 <= at,
        at + 8 <= blocks.len(),
        u64_at(blocks, at) == count,
    ensures
        u64_at(file, base + at) == count,
{
    lemma_be64_u64_at(blocks, at);
    assert(file.subrange(base + at, base + at + 8) =~= file.subrange(
        base,
        file.len() as int,
    ).subrange(at, at + 8));
    lemma_u64_at_be64(file, base + at, count);
}

/// An entry of the index stands in the file where the index stands.
proof fn lemma_entry_in_file(
    file: Seq<u8>,
    blocks: Seq<u8>,
    entries: Seq<u8>,
    base: int,
    at: int,
)
    requires
        0 <= base <= file.len(),
        file.subrange(base, file.len() as int) == blocks,
        entries.len() <= blocks.len(),
        blocks.subrange(0, entries.len() as int) == entries,
        0 <= at,
        at + 26 <= entries.len(),
    ensures
        Key::at(file, base + at) == Key::at(entries, at),
        u64_at(file, base + at + 18) == u64_at(entries, at + 18),
{
    assert(ENTRY_SIZE == 26 && crate::key::KEY_SIZE == 18);
    assert(file.subrange(base + at, base + at + 26) =~= file.subrange(
        base,
        file.len() as int,
    ).subrange(at, at + 26));
    assert(blocks.subrange(at, at + 26) =~= blocks.subrange(0, entries.len() as int).subrange(
        at,
        at + 26,
    ));
    lemma_entry_agrees(file, base + at, entries, at);
}

/// A value of the writer is the value of the file at the same reference.
proof fn lemma_value_in_file(values: Seq<u8>, file: Seq<u8>, word: u64)
    requires
        blob_at(values, BlobRef(word).spec_pos() as int) is Some,
        BlobRef(word).spec_pos() >= 88,
        88 <= values.len() <= file.len(),
        file.subrange(88, values.len() as int) == values.subrange(88, values.len() as int),
    ensures
        value_at(file, word) == value_at(values, word),
{
    let pos = BlobRef(word).spec_pos() as int;
    assert forall|j: int| pos <= j < values.len() implies values[j] == file[j] by {
        assert(file.subrange(88, values.len() as int)[j - 88] == file[j]);
        assert(values.subrange(88, values.len() as int)[j - 88] == values[j]);
    }
    lemma_blob_at_agree(values, file, pos);
}

/// A file that has the values of a writer after its first bytes, and the
/// finished index of the writer from block `start_blk` on, holds the contents
/// of the writer.
proof fn lemma_finished_file(
    w: ImageLayerWriter,
    file: Seq<u8>,
    start_blk: u32,
    root_blk: u32,
    blocks: Seq<u8>,
)
    requires
        w.wf(),
        start_blk as int * PAGE_SZ as int == round_up_to_block(w.blob_writer@.len() as int),
        root_blk as int * PAGE_SZ as int == round_up_to_block(w.tree.buf@.len() as int),
        blocks.len() == (root_blk as int + 1) * PAGE_SZ as int,
        blocks.subrange(0, w.tree.buf@.len() as int) == w.tree.buf@,
        u64_at(blocks, root_blk as int * PAGE_SZ as int) == w.tree.count,
        file.len() == start_blk as int * PAGE_SZ as int + blocks.len(),
        file.subrange(SUMMARY_LEN as int, w.blob_writer@.len() as int) == w.blob_writer@.subrange(
            SUMMARY_LEN as int,
            w.blob_writer@.len() as int,
        ),
        file.subrange(start_blk as int * PAGE_SZ as int, file.len() as int) == blocks,
    ensures
        forall|i: int|
            #![trigger entry_key(file, start_blk, i)]
            #![trigger entry_value(file, start_blk, i)]
            0 <= i < w.tree.count ==> entry_key(file, start_blk, i) == w.tree.key(i)
                && entry_value(file, start_blk, i) == w.tree.value(i),
        holds_contents(file, start_blk, root_blk, w.contents()),
{
    assert(PAGE_SZ == 8192 && SUMMARY_LEN == 88 && ENTRY_SIZE == 26 && crate::key::KEY_SIZE == 18);
    let values = w.blob_writer@;
    let entries = w.tree.buf@;
    let n = w.tree.count as int;
    let base = start_blk as int * 8192;
    let rp = root_blk as int * 8192;
    lemma_round_up_bounds(values.len() as int);
    lemma_round_up_bounds(entries.len() as int);
    lemma_count_in_file(file, blocks, base, rp, w.tree.count);
    assert(index_count(file, start_blk, root_blk) == Some(n));
    assert forall|i: int| 0 <= i < n implies #[trigger] entry_key(file, start_blk, i)
        == w.tree.key(i) && entry_value(file, start_blk, i) == w.tree.value(i) by {
        lemma_entry_in_file(file, blocks, entries, base, i * 26);
    }
    assert forall|i: int, j: int| 0 <= i < j < n implies #[trigger] entry_key(
        file,
        start_blk,
        i,
    ).value() < #[trigger] entry_key(file, start_blk, j).value() by {
        assert(w.tree.key(i).value() < w.tree.key(j).value());
    }
    assert forall|i: int| 0 <= i < n implies #[trigger] entry_key(file, start_blk, i)
        == w.contents()[i].0 && value_at(file, entry_value(file, start_blk, i))
        == w.contents()[i].1 by {
        assert(w.key_range.spec_contains(w.tree.key(i)));
        lemma_value_in_file(values, file, w.tree.value(i));
    }
}

} // verus!
