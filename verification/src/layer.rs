//! The image layer: a snapshot of every key of a key range at one LSN, held
//! in a file of a summary block, the values and an index.
use crate::be_bytes::{be64, put_u64};
use crate::blob_io::{blob_at, copy_range, read_blob};
use crate::blob_ref::BlobRef;
use crate::compression::{decode, decoded};
use crate::disk_index::{
    entry_key, entry_value, index_count, index_entry, index_get, index_has_key, index_len,
    index_search, index_sorted, lemma_entry_within, lemma_index_find_unique,
    lemma_search_finds,
};
use crate::error::LayerError;
use crate::hex_text::{hex_encode, hex_encode_upper, hex_lower, hex_upper, push_str};
use crate::key::{Key, KeyRange, Lsn, LsnRange, TenantId, TimelineId, KEY_SIZE};
use crate::reconstruct::{bytes_from_vec, ValueReconstructResult, ValueReconstructState};
use crate::summary::{
    Summary, IMAGE_FILE_MAGIC, PAGE_SZ, STORAGE_FORMAT_VERSION, SUMMARY_LEN,
};
use vstd::prelude::*;

verus! {

/// How a layer handle came to be, which decides how strictly the summary in
/// the file is held against the handle when the layer is loaded.
#[derive(Debug, Clone, Copy, PartialEq, Eq, Structural)]
pub enum Origin {
    /// From the name of a file in a timeline directory: the summary has to
    /// agree with the handle.
    FromConfig,
    /// From the summary of a file at some path: the summary is taken as it is.
    FromPath,
}

/// What the name of a layer file tells: the key range and the LSN.
#[derive(Debug, Clone, Copy, PartialEq, Eq, Structural)]
pub struct ImageFileName {
    pub key_range: KeyRange,
    pub lsn: Lsn,
}

impl ImageFileName {
    /// The name as text: the start of the key range, a hyphen, its end, two
    /// underscores, and the LSN, each in upper-case hexadecimal digits.
    pub open spec fn spec_to_string(self) -> Seq<char> {
        hex_upper(self.key_range.start.bytes()) + seq!['-'] + hex_upper(
            self.key_range.end.bytes(),
        ) + seq!['_', '_'] + hex_upper(be64(self.lsn.0))
    }

    /// The name as text.
    pub fn to_string(&self) -> (s: String)
        ensures
            s@ == self.spec_to_string(),
    {
        let mut start: Vec<u8> = Vec::new();
        self.key_range.start.write_to(&mut start);
        let mut end: Vec<u8> = Vec::new();
        self.key_range.end.write_to(&mut end);
        let mut lsn: Vec<u8> = Vec::new();
        put_u64(&mut lsn, self.lsn.0);
        proof {
            reveal_strlit("-");
            reveal_strlit("__");
            assert(start@ =~= self.key_range.start.bytes());
            assert(end@ =~= self.key_range.end.bytes());
            assert(lsn@ =~= be64(self.lsn.0));
            assert("-"@ =~= seq!['-']);
            assert("__"@ =~= seq!['_', '_']);
        }
        let mut s = hex_encode_upper(start.as_slice());
        push_str(&mut s, "-");
        let tail = hex_encode_upper(end.as_slice());
        push_str(&mut s, tail.as_str());
        push_str(&mut s, "__");
        let tail = hex_encode_upper(lsn.as_slice());
        push_str(&mut s, tail.as_str());
        s
    }
}

/// One entry of the index, as a dump shows it.
pub struct DumpEntry {
    /// The key, in lower-case hexadecimal digits.
    pub key: String,
    /// Offset of the blob of the value.
    pub pos: u64,
    /// Whether the value is stored compressed.
    pub compressed: bool,
}

/// That `entry` shows entry `i` of the index.
pub open spec fn shows_entry(entry: DumpEntry, file: Seq<u8>, start_blk: u32, i: int) -> bool {
    &&& entry.key@ == hex_lower(entry_key(file, start_blk, i).bytes())
    &&& entry.pos == BlobRef(entry_value(file, start_blk, i)).spec_pos()
    &&& entry.compressed == BlobRef(entry_value(file, start_blk, i)).spec_compressed()
}

/// The part of a layer that loading fills in.
pub struct ImageLayerInner {
    /// Whether the summary has been read and the two block numbers are valid.
    pub loaded: bool,
    /// Block at which the index begins.
    pub index_start_blk: u32,
    /// Block of the index root, counted from `index_start_blk`.
    pub index_root_blk: u32,
    /// Contents of the file, once it has been opened.
    pub file: Option<Vec<u8>>,
}

/// Handle of a layer file. A fresh handle is not loaded: the file is read
/// when the layer is first used.
pub struct ImageLayer {
    pub origin: Origin,
    pub tenantid: TenantId,
    pub timelineid: TimelineId,
    pub key_range: KeyRange,
    /// The file holds an image of every key as of this LSN.
    pub lsn: Lsn,
    pub inner: ImageLayerInner,
}

/// The value that stored bytes at `offset` stand for, or the error of a
/// blob that is flagged as compressed and does not decompress.
pub open spec fn stored_value(stored: Seq<u8>, compressed: bool, offset: u64) -> Result<
    Seq<u8>,
    LayerError,
> {
    match decoded(stored, compressed) {
        None => Err(LayerError::Decompress { offset }),
        Some(v) => Ok(v),
    }
}

/// The value that the file holds for a reference word of its index: the
/// blob at the offset of the reference, decompressed where the reference
/// says that it is compressed.
pub open spec fn value_at(file: Seq<u8>, word: u64) -> Result<Seq<u8>, LayerError> {
    let r = BlobRef(word);
    match blob_at(file, r.spec_pos() as int) {
        None => Err(LayerError::BlobRead { offset: r.spec_pos() }),
        Some(stored) => stored_value(stored, r.spec_compressed(), r.spec_pos()),
    }
}

/// What the file gives for what the index gave: nothing where the index has
/// no entry, else the value at the reference.
pub open spec fn value_of(file: Seq<u8>, found: Option<u64>) -> Result<
    Option<Seq<u8>>,
    LayerError,
> {
    match found {
        None => Ok(None),
        Some(word) => match value_at(file, word) {
            Ok(v) => Ok(Some(v)),
            Err(e) => Err(e),
        },
    }
}

/// What the file gives for `key`: `CorruptIndex` where the index has no
/// well-formed root, nothing where the search in the index finds no entry,
/// else the value at the reference of the entry that it finds.
pub open spec fn lookup(file: Seq<u8>, start_blk: u32, root_blk: u32, key: Key) -> Result<
    Option<Seq<u8>>,
    LayerError,
> {
    match index_count(file, start_blk, root_blk) {
        None => Err(LayerError::CorruptIndex),
        Some(n) => value_of(file, index_search(file, start_blk, 0, n, key)),
    }
}

/// That the file holds `contents` and nothing else: its index is sorted and
/// has one entry for each item, with the key of the item and a reference at
/// which the file gives what the item says: a value, or the error of a blob
/// that does not read.
pub open spec fn holds_contents(
    file: Seq<u8>,
    start_blk: u32,
    root_blk: u32,
    contents: Seq<(Key, Result<Seq<u8>, LayerError>)>,
) -> bool {
    &&& index_count(file, start_blk, root_blk) == Some(contents.len() as int)
    &&& index_sorted(file, start_blk, contents.len() as int)
    &&& forall|i: int|
        0 <= i < contents.len() ==> #[trigger] entry_key(file, start_blk, i) == contents[i].0
            && value_at(file, entry_value(file, start_blk, i)) == contents[i].1
}

/// A file gives back what it holds: looking up the key of an item gives the
/// value of the item, byte for byte, whether it is stored compressed or
/// raw.
pub proof fn lemma_lookup_finds(
    file: Seq<u8>,
    start_blk: u32,
    root_blk: u32,
    contents: Seq<(Key, Result<Seq<u8>, LayerError>)>,
    i: int,
)
    requires
        holds_contents(file, start_blk, root_blk, contents),
        0 <= i < contents.len(),
    ensures
        lookup(file, start_blk, root_blk, contents[i].0) == match contents[i].1 {
            Ok(v) => Ok::<Option<Seq<u8>>, LayerError>(Some(v)),
            Err(e) => Err::<Option<Seq<u8>>, LayerError>(e),
        },
{
    let n = contents.len() as int;
    assert(entry_key(file, start_blk, i) == contents[i].0);
    lemma_search_finds(file, start_blk, n, 0, n, contents[i].0);
    lemma_index_find_unique(file, start_blk, n, contents[i].0, i);
}

/// Looking up a key that is the key of no item gives nothing, and no error.
pub proof fn lemma_lookup_misses(
    file: Seq<u8>,
    start_blk: u32,
    root_blk: u32,
    contents: Seq<(Key, Result<Seq<u8>, LayerError>)>,
    key: Key,
)
    requires
        holds_contents(file, start_blk, root_blk, contents),
        forall|i: int| 0 <= i < contents.len() ==> (#[trigger] contents[i]).0 != key,
    ensures
        lookup(file, start_blk, root_blk, key) == Ok::<Option<Seq<u8>>, LayerError>(None),
{
    let n = contents.len() as int;
    lemma_search_finds(file, start_blk, n, 0, n, key);
    if index_has_key(file, start_blk, n, key) {
        let i = choose|i: int| 0 <= i < n && #[trigger] entry_key(file, start_blk, i) == key;
        assert(contents[i].0 == key);
    }
}

/// Reads the value that the reference `blob_ref` points to. Fails with
/// `BlobRead` where no whole blob stands at its offset, and with
/// `Decompress` where the blob is flagged as compressed and does not
/// decompress.
pub fn read_value(file: &[u8], blob_ref: BlobRef) -> (r: Result<Vec<u8>, LayerError>)
    ensures
        match value_at(file@, blob_ref.0) {
            Ok(v) => r matches Ok(out) && out@ == v,
            Err(e) => r == Err::<Vec<u8>, LayerError>(e),
        },
{
    let pos = blob_ref.pos();
    let stored = match read_blob(file, pos) {
        Ok(stored) => stored,
        Err(e) => {
            return Err(e);
        },
    };
    match decode(stored, blob_ref.compressed()) {
        Some(v) => Ok(v),
        None => Err(LayerError::Decompress { offset: pos }),
    }
}

impl ImageLayerInner {
    /// The state of a layer that has not been loaded and has no file.
    pub fn new() -> (inner: ImageLayerInner)
        ensures
            !inner.loaded,
            inner.file is None,
            inner.index_start_blk == 0,
            inner.index_root_blk == 0,
    {
        ImageLayerInner { loaded: false, index_start_blk: 0, index_root_blk: 0, file: None }
    }
}

impl ImageLayer {
    /// The summary that the file of this layer is expected to hold, but for
    /// the two block numbers, which only the file knows: they are zero here.
    pub open spec fn spec_expected_summary(&self) -> Summary {
        Summary {
            magic: IMAGE_FILE_MAGIC,
            format_version: STORAGE_FORMAT_VERSION,
            tenantid: self.tenantid,
            timelineid: self.timelineid,
            key_range: self.key_range,
            lsn: self.lsn,
            index_start_blk: 0,
            index_root_blk: 0,
        }
    }

    /// The summary that the file of this layer is expected to hold, but for
    /// the two block numbers, which only the file knows: they are zero here.
    pub fn expected_summary(&self) -> (s: Summary)
        ensures
            s == self.spec_expected_summary(),
    {
        Summary {
            magic: IMAGE_FILE_MAGIC,
            format_version: STORAGE_FORMAT_VERSION,
            tenantid: self.tenantid,
            timelineid: self.timelineid,
            key_range: self.key_range,
            lsn: self.lsn,
            index_start_blk: 0,
            index_root_blk: 0,
        }
    }

    /// The handle of an existing file, from what its name and place tell.
    pub fn new(timelineid: TimelineId, tenantid: TenantId, filename: &ImageFileName) -> (layer:
        ImageLayer)
        ensures
            layer.origin == Origin::FromConfig,
            layer.timelineid == timelineid,
            layer.tenantid == tenantid,
            layer.key_range == filename.key_range,
            layer.lsn == filename.lsn,
            !layer.inner.loaded,
            layer.inner.file is None,
            layer.inner.index_start_blk == 0,
            layer.inner.index_root_blk == 0,
    {
        ImageLayer {
            origin: Origin::FromConfig,
            timelineid,
            tenantid,
            key_range: filename.key_range,
            lsn: filename.lsn,
            inner: ImageLayerInner::new(),
        }
    }

    /// The handle of a file at some path, from the first block of the file:
    /// identity, key range and LSN are those of the summary in it. Fails with
    /// `Truncated` when `summary_buf` is shorter than a summary, and with
    /// `SummaryMismatch` when the summary has another magic number or format
    /// version than this library writes.
    pub fn new_for_path(summary_buf: &[u8]) -> (r: Result<ImageLayer, LayerError>)
        ensures
            summary_buf@.len() < SUMMARY_LEN ==> r matches Err(LayerError::Truncated),
            summary_buf@.len() >= SUMMARY_LEN && !Summary::spec_des(summary_buf@).spec_is_current()
                ==> r matches Err(LayerError::SummaryMismatch),
            summary_buf@.len() >= SUMMARY_LEN && Summary::spec_des(summary_buf@).spec_is_current()
                ==> {
                &&& r matches Ok(layer)
                &&& layer.origin == Origin::FromPath
                &&& layer.timelineid == Summary::spec_des(summary_buf@).timelineid
                &&& layer.tenantid == Summary::spec_des(summary_buf@).tenantid
                &&& layer.key_range == Summary::spec_des(summary_buf@).key_range
                &&& layer.lsn == Summary::spec_des(summary_buf@).lsn
                &&& !layer.inner.loaded
                &&& layer.inner.file is None
                &&& layer.inner.index_start_blk == 0
                &&& layer.inner.index_root_blk == 0
            },
    {
        let summary = match Summary::des_prefix(summary_buf) {
            Ok(summary) => summary,
            Err(e) => {
                return Err(e);
            },
        };
        if !summary.is_current() {
            return Err(LayerError::SummaryMismatch);
        }
        Ok(
            ImageLayer {
                origin: Origin::FromPath,
                timelineid: summary.timelineid,
                tenantid: summary.tenantid,
                key_range: summary.key_range,
                lsn: summary.lsn,
                inner: ImageLayerInner::new(),
            },
        )
    }

    /// What the name of the file of this layer tells.
    pub fn layer_name(&self) -> (name: ImageFileName)
        ensures
            name.key_range == self.key_range,
            name.lsn == self.lsn,
    {
        ImageFileName { key_range: self.key_range, lsn: self.lsn }
    }

    pub fn get_tenant_id(&self) -> (id: TenantId)
        ensures
            id == self.tenantid,
    {
        self.tenantid
    }

    pub fn get_timeline_id(&self) -> (id: TimelineId)
        ensures
            id == self.timelineid,
    {
        self.timelineid
    }

    pub fn get_key_range(&self) -> (range: KeyRange)
        ensures
            range == self.key_range,
    {
        self.key_range
    }

    /// The LSNs that the layer covers: its own LSN and no other. The end of
    /// the range lies outside it.
    pub fn get_lsn_range(&self) -> (range: LsnRange)
        requires
            self.lsn.0 < u64::MAX,
        ensures
            range.start == self.lsn,
            range.end.0 == self.lsn.0 + 1,
    {
        LsnRange { start: self.lsn, end: Lsn(self.lsn.0 + 1) }
    }

    /// An image layer needs no older layer below it.
    pub fn is_incremental(&self) -> (r: bool)
        ensures
            !r,
    {
        false
    }

    /// An image layer is always backed by a file.
    pub fn is_in_memory(&self) -> (r: bool)
        ensures
            !r,
    {
        false
    }

    /// What loading gives in the state that the layer is in: the summary of
    /// the file, or the reason why the layer cannot be loaded. There has to
    /// be a file, it has to hold a whole first block, and its summary has to
    /// have the magic number and the format version of this library. For a
    /// handle that came from a file name the summary also has to be the
    /// expected one in everything but the two block numbers.
    pub open spec fn spec_load(&self) -> Result<Summary, LayerError> {
        match self.inner.file {
            None => Err(LayerError::NotOpen),
            Some(file) => {
                let actual = Summary::spec_des(file@);
                let expected = Summary {
                    index_start_blk: actual.index_start_blk,
                    index_root_blk: actual.index_root_blk,
                    ..self.spec_expected_summary()
                };
                if file@.len() < PAGE_SZ {
                    Err(LayerError::Truncated)
                } else if !actual.spec_is_current() {
                    Err(LayerError::SummaryMismatch)
                } else if self.origin == Origin::FromConfig && actual != expected {
                    Err(LayerError::SummaryMismatch)
                } else {
                    Ok(actual)
                }
            },
        }
    }

    /// A layer that is loaded has its two block numbers from the summary of
    /// the file that it holds, which loads.
    pub open spec fn loaded_from_file(&self) -> bool {
        self.inner.loaded ==> {
            &&& self.spec_load() matches Ok(summary)
            &&& self.inner.index_start_blk == summary.index_start_blk
            &&& self.inner.index_root_blk == summary.index_root_blk
        }
    }

    /// Gives the layer the contents of its file, unless it has them already.
    /// A load that failed has left none.
    pub fn attach_file(&mut self, file: Vec<u8>)
        ensures
            final(self).inner.file == match old(self).inner.file {
                Some(f) => Some(f),
                None => Some(file),
            },
            final(self).inner.loaded == old(self).inner.loaded,
            final(self).inner.index_start_blk == old(self).inner.index_start_blk,
            final(self).inner.index_root_blk == old(self).inner.index_root_blk,
            final(self).origin == old(self).origin,
            final(self).tenantid == old(self).tenantid,
            final(self).timelineid == old(self).timelineid,
            final(self).key_range == old(self).key_range,
            final(self).lsn == old(self).lsn,
            old(self).loaded_from_file() ==> final(self).loaded_from_file(),
    {
        if self.inner.file.is_none() {
            self.inner.file = Some(file);
        }
    }

    /// Reads the summary from the first block of the file, holds it against
    /// the handle, and takes the two block numbers of the index from it. On
    /// success the layer is loaded. On failure the layer is not loaded and
    /// lets go of the contents of the file, so that a later call starts from
    /// scratch, with the file as it then is.
    pub fn load_inner(&mut self) -> (r: Result<(), LayerError>)
        ensures
            final(self).origin == old(self).origin,
            final(self).tenantid == old(self).tenantid,
            final(self).timelineid == old(self).timelineid,
            final(self).key_range == old(self).key_range,
            final(self).lsn == old(self).lsn,
            final(self).loaded_from_file(),
            match old(self).spec_load() {
                Ok(summary) => {
                    &&& r is Ok
                    &&& final(self).inner.file == old(self).inner.file
                    &&& final(self).inner.loaded
                    &&& final(self).inner.index_start_blk == summary.index_start_blk
                    &&& final(self).inner.index_root_blk == summary.index_root_blk
                },
                Err(e) => {
                    &&& r == Err::<(), LayerError>(e)
                    &&& final(self).inner.file is None
                    &&& !final(self).inner.loaded
                    &&& final(self).inner.index_start_blk == old(self).inner.index_start_blk
                    &&& final(self).inner.index_root_blk == old(self).inner.index_root_blk
                },
            },
    {
        let mut expected = Summary::from(&*self);
        let outcome: Result<Summary, LayerError> = match &self.inner.file {
            None => Err(LayerError::NotOpen),
            Some(file) => {
                if file.len() < PAGE_SZ {
                    Err(LayerError::Truncated)
                } else {
                    match Summary::des_prefix(file.as_slice()) {
                        Ok(actual) => {
                            expected.index_start_blk = actual.index_start_blk;
                            expected.index_root_blk = actual.index_root_blk;
                            if !actual.is_current() {
                                Err(LayerError::SummaryMismatch)
                            } else {
                                match self.origin {
                                    Origin::FromConfig => if actual != expected {
                                        Err(LayerError::SummaryMismatch)
                                    } else {
                                        Ok(actual)
                                    },
                                    Origin::FromPath => Ok(actual),
                                }
                            }
                        },
                        Err(e) => Err(e),
                    }
                }
            },
        };
        match outcome {
            Ok(actual) => {
                self.inner.index_start_blk = actual.index_start_blk;
                self.inner.index_root_blk = actual.index_root_blk;
                self.inner.loaded = true;
                Ok(())
            },
            Err(e) => {
                self.inner.file = None;
                self.inner.loaded = false;
                Err(e)
            },
        }
    }

    /// Looks `key` up in a loaded layer. Where the file holds a value for
    /// the key, the value goes into `reconstruct_state` with the LSN of the
    /// layer and the result is `Complete`: an image needs no older layer.
    /// Where it holds none the result is `Missing`, which is no error. The
    /// key lies in the key range of the layer, and the LSNs that are asked
    /// for do not lie before the LSN of the layer. Fails with `NotLoaded` and
    /// `NotOpen` for a layer that is not ready, and with what `lookup` gives
    /// for a file that is damaged. Only a `Complete` result changes the
    /// state.
    pub fn get_value_reconstruct_data(
        &self,
        key: Key,
        lsn_range: LsnRange,
        reconstruct_state: &mut ValueReconstructState,
    ) -> (r: Result<ValueReconstructResult, LayerError>)
        requires
            self.key_range.spec_contains(key),
            lsn_range.start.0 >= self.lsn.0,
            lsn_range.end.0 >= self.lsn.0,
        ensures
            !(r matches Ok(ValueReconstructResult::Complete)) ==> *final(reconstruct_state) == *old(
                reconstruct_state,
            ),
            r != Ok::<ValueReconstructResult, LayerError>(ValueReconstructResult::Continue),
            !self.inner.loaded ==> r == Err::<ValueReconstructResult, LayerError>(
                LayerError::NotLoaded,
            ),
            self.inner.loaded ==> match self.inner.file {
                None => r == Err::<ValueReconstructResult, LayerError>(LayerError::NotOpen),
                Some(file) => match lookup(
                    file@,
                    self.inner.index_start_blk,
                    self.inner.index_root_blk,
                    key,
                ) {
                    Ok(Some(v)) => {
                        &&& r == Ok::<ValueReconstructResult, LayerError>(
                            ValueReconstructResult::Complete,
                        )
                        &&& final(reconstruct_state).image() == Some((self.lsn, v))
                    },
                    Ok(None) => r == Ok::<ValueReconstructResult, LayerError>(
                        ValueReconstructResult::Missing,
                    ),
                    Err(e) => r == Err::<ValueReconstructResult, LayerError>(e),
                },
            },
    {
        if !self.inner.loaded {
            return Err(LayerError::NotLoaded);
        }
        let file = match &self.inner.file {
            Some(file) => file.as_slice(),
            None => {
                return Err(LayerError::NotOpen);
            },
        };
        let found = match index_get(
            file,
            self.inner.index_start_blk,
            self.inner.index_root_blk,
            &key,
        ) {
            Ok(found) => found,
            Err(e) => {
                return Err(e);
            },
        };
        match found {
            Some(word) => {
                let value = match read_value(file, BlobRef(word)) {
                    Ok(value) => value,
                    Err(e) => {
                        return Err(e);
                    },
                };
                reconstruct_state.img = Some((self.lsn, bytes_from_vec(value)));
                Ok(ValueReconstructResult::Complete)
            },
            None => Ok(ValueReconstructResult::Missing),
        }
    }

    /// The name of the file of this layer, as text.
    pub fn filename(&self) -> (s: String)
        ensures
            s@ == (ImageFileName { key_range: self.key_range, lsn: self.lsn }).spec_to_string(),
    {
        self.layer_name().to_string()
    }

    /// Whether the name of the file is at odds with the layer: the layer
    /// was opened by path, and its file is not named as its summary has it.
    /// This is worth a warning and is no error.
    pub fn filename_differs(&self, actual_filename: &str) -> (r: bool)
        ensures
            r == (self.origin == Origin::FromPath && actual_filename@ != (ImageFileName {
                key_range: self.key_range,
                lsn: self.lsn,
            }).spec_to_string()),
    {
        match self.origin {
            Origin::FromConfig => false,
            Origin::FromPath => {
                let expected = self.filename();
                let actual = actual_filename.to_owned();
                !(expected == actual)
            },
        }
    }

    /// What a dump of a loaded layer lists: nothing unless `verbose`, else
    /// every entry of the index, from the least key on.
    pub fn dump(&self, verbose: bool) -> (r: Result<Vec<DumpEntry>, LayerError>)
        ensures
            !verbose ==> (r matches Ok(v) && v@.len() == 0),
            verbose && !self.inner.loaded ==> r matches Err(LayerError::NotLoaded),
            verbose && self.inner.loaded ==> match self.inner.file {
                None => r matches Err(LayerError::NotOpen),
                Some(file) => match index_count(
                    file@,
                    self.inner.index_start_blk,
                    self.inner.index_root_blk,
                ) {
                    None => r matches Err(LayerError::CorruptIndex),
                    Some(n) => {
                        &&& r matches Ok(v)
                        &&& v@.len() == n
                        &&& forall|i: int|
                            0 <= i < n ==> shows_entry(
                                #[trigger] v@[i],
                                file@,
                                self.inner.index_start_blk,
                                i,
                            )
                    },
                },
            },
    {
        let mut out: Vec<DumpEntry> = Vec::new();
        if !verbose {
            return Ok(out);
        }
        if !self.inner.loaded {
            return Err(LayerError::NotLoaded);
        }
        let file = match &self.inner.file {
            Some(file) => file.as_slice(),
            None => {
                return Err(LayerError::NotOpen);
            },
        };
        let start_blk = self.inner.index_start_blk;
        let n = match index_len(file, start_blk, self.inner.index_root_blk) {
            Ok(n) => n,
            Err(e) => {
                return Err(e);
            },
        };
        assert(PAGE_SZ == 8192 && KEY_SIZE == 18 && crate::disk_index::ENTRY_SIZE == 26);
        let mut i: u64 = 0;
        while i < n
            invariant
                i <= n,
                PAGE_SZ == 8192 && KEY_SIZE == 18 && crate::disk_index::ENTRY_SIZE == 26,
                index_count(file@, start_blk, self.inner.index_root_blk) == Some(n as int),
                out@.len() == i,
                forall|j: int| 0 <= j < i ==> shows_entry(#[trigger] out@[j], file@, start_blk, j),
            decreases n - i,
        {
            proof {
                lemma_entry_within(file@, start_blk, self.inner.index_root_blk, i as int);
            }
            let len = file.len();
            let at: usize = (start_blk as u64 * PAGE_SZ as u64 + i * 26) as usize;
            let (_, word) = index_entry(file, start_blk, i);
            let key_bytes = copy_range(file, at, at + KEY_SIZE);
            proof {
                Key::lemma_bytes_at(file@, at as int);
            }
            let blob_ref = BlobRef(word);
            out.push(
                DumpEntry {
                    key: hex_encode(key_bytes.as_slice()),
                    pos: blob_ref.pos(),
                    compressed: blob_ref.compressed(),
                },
            );
            i += 1;
        }
        Ok(out)
    }
}

impl From<&ImageLayer> for Summary {
    /// The summary that the file of `layer` is expected to hold, with zero
    /// for the two block numbers.
    fn from(layer: &ImageLayer) -> (s: Summary) {
        layer.expected_summary()
    }
}

impl vstd::std_specs::convert::FromSpecImpl<&ImageLayer> for Summary {
    open spec fn obeys_from_spec() -> bool {
        true
    }

    open spec fn from_spec(layer: &ImageLayer) -> Summary {
        layer.spec_expected_summary()
    }
}

/// No handle loads a file whose summary has another magic number or format
/// version than this library writes, and a handle that came from a file name
/// does not load a file whose summary names another tenant or timeline,
/// another key range or another LSN.
pub proof fn lemma_load_rejects_mismatch(layer: ImageLayer)
    requires
        layer.inner.file matches Some(file) && file@.len() >= PAGE_SZ && ({
            let s = Summary::spec_des(file@);
            ||| s.magic != IMAGE_FILE_MAGIC
            ||| s.format_version != STORAGE_FORMAT_VERSION
            ||| layer.origin == Origin::FromConfig && s.tenantid != layer.tenantid
            ||| layer.origin == Origin::FromConfig && s.timelineid != layer.timelineid
            ||| layer.origin == Origin::FromConfig && s.key_range != layer.key_range
            ||| layer.origin == Origin::FromConfig && s.lsn != layer.lsn
        }),
    ensures
        layer.spec_load() == Err::<Summary, LayerError>(LayerError::SummaryMismatch),
{
}

/// A handle that came from a file name loads a file whose summary agrees
/// with it, whatever the two block numbers in the summary are.
pub proof fn lemma_load_accepts_match(layer: ImageLayer)
    requires
        layer.inner.file matches Some(file) && file@.len() >= PAGE_SZ && ({
            let s = Summary::spec_des(file@);
            &&& s.magic == IMAGE_FILE_MAGIC
            &&& s.format_version == STORAGE_FORMAT_VERSION
            &&& s.tenantid == layer.tenantid
            &&& s.timelineid == layer.timelineid
            &&& s.key_range == layer.key_range
            &&& s.lsn == layer.lsn
        }),
    ensures
        layer.spec_load() == Ok::<Summary, LayerError>(
            Summary::spec_des(layer.inner.file->Some_0@),
        ),
{
}

/// What loading gives depends on the handle and the bytes of the file
/// alone: two handles of one layer with the same file get the same outcome,
/// and with it the same block numbers, however often and in whatever order
/// they are loaded.
pub proof fn lemma_load_is_determined(a: ImageLayer, b: ImageLayer)
    requires
        a.origin == b.origin,
        a.tenantid == b.tenantid,
        a.timelineid == b.timelineid,
        a.key_range == b.key_range,
        a.lsn == b.lsn,
        a.inner.file matches Some(fa) && b.inner.file matches Some(fb) && fa@ == fb@,
    ensures
        a.spec_load() == b.spec_load(),
{
}

/// Whoever finds a layer loaded finds the two block numbers that the
/// summary of its file holds: any two callers that hold the same file, at
/// whatever time and whichever of them loaded it, see the same numbers.
pub proof fn lemma_observers_agree(a: ImageLayer, b: ImageLayer)
    requires
        a.loaded_from_file(),
        b.loaded_from_file(),
        a.inner.loaded,
        b.inner.loaded,
        a.inner.file matches Some(fa) && b.inner.file matches Some(fb) && fa@ == fb@,
    ensures
        a.inner.index_start_blk == b.inner.index_start_blk,
        a.inner.index_root_blk == b.inner.index_root_blk,
        a.inner.index_start_blk == Summary::spec_des(a.inner.file->Some_0@).index_start_blk,
        a.inner.index_root_blk == Summary::spec_des(a.inner.file->Some_0@).index_root_blk,
{
}

} // verus!
