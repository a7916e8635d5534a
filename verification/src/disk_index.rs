//! The ordered index of a layer file: entries of a key and a 64-bit value,
//! packed in increasing key order from the first index block on. The root
//! block follows the entries and holds their number in its first eight bytes.
use crate::be_bytes::{be64, get_u64, lemma_be_lengths, lemma_u64_at_be64, put_u64, u64_at};
use crate::blob_io::{pad_to_block, round_up_to_block};
use crate::error::LayerError;
use crate::key::{Key, KEY_SIZE};
use crate::summary::PAGE_SZ;
use vstd::prelude::*;

verus! {

/// Number of bytes of an entry: a key and a value.
pub const ENTRY_SIZE: usize = 26;

/// Offset of entry `i` of the index that begins at block `start_blk`.
pub open spec fn entry_offset(start_blk: u32, i: int) -> int {
    start_blk as int * PAGE_SZ as int + i * ENTRY_SIZE as int
}

/// Offset of the root block.
pub open spec fn root_offset(start_blk: u32, root_blk: u32) -> int {
    (start_blk as int + root_blk as int) * PAGE_SZ as int
}

/// Key of entry `i`.
pub open spec fn entry_key(file: Seq<u8>, start_blk: u32, i: int) -> Key {
    Key::at(file, entry_offset(start_blk, i))
}

/// Value of entry `i`.
pub open spec fn entry_value(file: Seq<u8>, start_blk: u32, i: int) -> u64 {
    u64_at(file, entry_offset(start_blk, i) + KEY_SIZE as int)
}

/// Number of entries of the index, if the file holds a whole root block at
/// its place and the entries that it counts fit before it.
pub open spec fn index_count(file: Seq<u8>, start_blk: u32, root_blk: u32) -> Option<int> {
    let root = root_offset(start_blk, root_blk);
    if root + PAGE_SZ as int <= file.len() && u64_at(file, root) as int * ENTRY_SIZE as int
        <= root_blk as int * PAGE_SZ as int {
        Some(u64_at(file, root) as int)
    } else {
        None
    }
}

/// That the first `n` entries stand in strictly increasing key order.
pub open spec fn index_sorted(file: Seq<u8>, start_blk: u32, n: int) -> bool {
    forall|i: int, j: int|
        0 <= i < j < n ==> #[trigger] entry_key(file, start_blk, i).value() < #[trigger] entry_key(
            file,
            start_blk,
            j,
        ).value()
}

/// That one of the first `n` entries has the key `key` and the value `value`.
pub open spec fn index_holds(file: Seq<u8>, start_blk: u32, n: int, key: Key, value: u64) -> bool {
    exists|i: int|
        0 <= i < n && #[trigger] entry_key(file, start_blk, i) == key && entry_value(
            file,
            start_blk,
            i,
        ) == value
}

/// That one of the first `n` entries has the key `key`.
pub open spec fn index_has_key(file: Seq<u8>, start_blk: u32, n: int, key: Key) -> bool {
    exists|i: int| 0 <= i < n && #[trigger] entry_key(file, start_blk, i) == key
}

/// The value that the index gives for `key`: that of an entry with this
/// key, if there is one. In a sorted index there is at most one.
pub open spec fn index_find(file: Seq<u8>, start_blk: u32, n: int, key: Key) -> Option<u64> {
    if index_has_key(file, start_blk, n, key) {
        let i = choose|i: int| 0 <= i < n && #[trigger] entry_key(file, start_blk, i) == key;
        Some(entry_value(file, start_blk, i))
    } else {
        None
    }
}

/// In a sorted index the entry with a given key is the only one, so its
/// value is what the index gives for the key.
pub proof fn lemma_index_find_unique(file: Seq<u8>, start_blk: u32, n: int, key: Key, i: int)
    requires
        index_sorted(file, start_blk, n),
        0 <= i < n,
        entry_key(file, start_blk, i) == key,
    ensures
        index_find(file, start_blk, n, key) == Some(entry_value(file, start_blk, i)),
{
    let j = choose|j: int| 0 <= j < n && #[trigger] entry_key(file, start_blk, j) == key;
    if j < i {
        assert(entry_key(file, start_blk, j).value() < entry_key(file, start_blk, i).value());
    } else if i < j {
        assert(entry_key(file, start_blk, i).value() < entry_key(file, start_blk, j).value());
    }
}

/// What a binary search for `key` among the entries from `lo` up to `hi`
/// gives: the value of the entry in the middle where it has the key, else
/// what the search gives in the half on the side of the key.
pub open spec fn index_search(file: Seq<u8>, start_blk: u32, lo: int, hi: int, key: Key) -> Option<
    u64,
>
    decreases hi - lo,
{
    if lo >= hi {
        None
    } else {
        let mid = lo + (hi - lo) / 2;
        if entry_key(file, start_blk, mid) == key {
            Some(entry_value(file, start_blk, mid))
        } else if entry_key(file, start_blk, mid).value() < key.value() {
            index_search(file, start_blk, mid + 1, hi, key)
        } else {
            index_search(file, start_blk, lo, mid, key)
        }
    }
}

/// A value that the search gives is that of an entry with the key.
pub proof fn lemma_search_holds(file: Seq<u8>, start_blk: u32, n: int, lo: int, hi: int, key: Key)
    requires
        0 <= lo <= hi <= n,
    ensures
        index_search(file, start_blk, lo, hi, key) matches Some(v) ==> index_holds(
            file,
            start_blk,
            n,
            key,
            v,
        ),
    decreases hi - lo,
{
    if lo < hi {
        let mid = lo + (hi - lo) / 2;
        if entry_key(file, start_blk, mid) == key {
        } else if entry_key(file, start_blk, mid).value() < key.value() {
            lemma_search_holds(file, start_blk, n, mid + 1, hi, key);
        } else {
            lemma_search_holds(file, start_blk, n, lo, mid, key);
        }
    }
}

/// In a sorted index the search gives what the index gives for the key,
/// when the entries before `lo` have lesser keys and those from `hi` on have
/// greater ones.
pub proof fn lemma_search_finds(file: Seq<u8>, start_blk: u32, n: int, lo: int, hi: int, key: Key)
    requires
        index_sorted(file, start_blk, n),
        0 <= lo <= hi <= n,
        forall|i: int| 0 <= i < lo ==> #[trigger] entry_key(file, start_blk, i).value() < key.value(),
        forall|i: int|
            hi <= i < n ==> #[trigger] entry_key(file, start_blk, i).value() > key.value(),
    ensures
        index_search(file, start_blk, lo, hi, key) == index_find(file, start_blk, n, key),
    decreases hi - lo,
{
    if lo >= hi {
        if index_has_key(file, start_blk, n, key) {
            let i = choose|i: int| 0 <= i < n && #[trigger] entry_key(file, start_blk, i) == key;
            assert(entry_key(file, start_blk, i).value() == key.value());
        }
    } else {
        let mid = lo + (hi - lo) / 2;
        let k = entry_key(file, start_blk, mid);
        if k == key {
            lemma_index_find_unique(file, start_blk, n, key, mid);
        } else if k.value() < key.value() {
            assert forall|i: int| 0 <= i < mid + 1 implies #[trigger] entry_key(
                file,
                start_blk,
                i,
            ).value() < key.value() by {
                if i < mid {
                    assert(entry_key(file, start_blk, i).value() < entry_key(
                        file,
                        start_blk,
                        mid,
                    ).value());
                }
            }
            lemma_search_finds(file, start_blk, n, mid + 1, hi, key);
        } else {
            if k.value() == key.value() {
                Key::lemma_value_injective(k, key);
            }
            assert forall|i: int| mid <= i < n implies #[trigger] entry_key(
                file,
                start_blk,
                i,
            ).value() > key.value() by {
                if mid < i {
                    assert(entry_key(file, start_blk, mid).value() < entry_key(
                        file,
                        start_blk,
                        i,
                    ).value());
                }
            }
            lemma_search_finds(file, start_blk, n, lo, mid, key);
        }
    }
}

/// Every entry that the root counts stands within the file.
pub proof fn lemma_entry_within(file: Seq<u8>, start_blk: u32, root_blk: u32, i: int)
    requires
        index_count(file, start_blk, root_blk) matches Some(n) && 0 <= i < n,
    ensures
        0 <= entry_offset(start_blk, i),
        entry_offset(start_blk, i) + ENTRY_SIZE as int <= file.len(),
{
    assert(PAGE_SZ == 8192 && ENTRY_SIZE == 26);
}

/// Reads the number of entries from the root block. Fails with
/// `CorruptIndex` when the file holds no whole root block at its place or
/// the entries that it counts do not fit before it.
pub fn index_len(file: &[u8], start_blk: u32, root_blk: u32) -> (r: Result<u64, LayerError>)
    ensures
        match index_count(file@, start_blk, root_blk) {
            Some(n) => r == Ok::<u64, LayerError>(n as u64),
            None => r == Err::<u64, LayerError>(LayerError::CorruptIndex),
        },
{
    assert(PAGE_SZ == 8192 && ENTRY_SIZE == 26);
    let root: u64 = (start_blk as u64 + root_blk as u64) * (PAGE_SZ as u64);
    if root + PAGE_SZ as u64 > file.len() as u64 {
        return Err(LayerError::CorruptIndex);
    }
    let n = get_u64(file, root as usize);
    if n > (root_blk as u64 * PAGE_SZ as u64) / (ENTRY_SIZE as u64) {
        return Err(LayerError::CorruptIndex);
    }
    Ok(n)
}

/// Reads entry `i` of an index of more than `i` entries.
pub fn index_entry(file: &[u8], start_blk: u32, i: u64) -> (r: (Key, u64))
    requires
        entry_offset(start_blk, i as int) + ENTRY_SIZE as int <= file@.len(),
    ensures
        r.0 == entry_key(file@, start_blk, i as int),
        r.1 == entry_value(file@, start_blk, i as int),
{
    let len = file.len();
    assert(PAGE_SZ == 8192 && ENTRY_SIZE == 26);
    assert(i as int * 26 + 26 <= len);
    let at: usize = (start_blk as u64 * PAGE_SZ as u64 + i * ENTRY_SIZE as u64) as usize;
    (Key::read_from(file, at), get_u64(file, at + KEY_SIZE))
}

/// Looks `key` up by binary search. Fails with `CorruptIndex` exactly when
/// the index has no well-formed root. Else the result is what the search
/// gives among all entries, which in a sorted index is the value of the
/// entry with the key, or none where no entry has it.
pub fn index_get(file: &[u8], start_blk: u32, root_blk: u32, key: &Key) -> (r: Result<
    Option<u64>,
    LayerError,
>)
    ensures
        match index_count(file@, start_blk, root_blk) {
            None => r == Err::<Option<u64>, LayerError>(LayerError::CorruptIndex),
            Some(n) => r == Ok::<Option<u64>, LayerError>(
                index_search(file@, start_blk, 0, n, *key),
            ),
        },
{
    let n = match index_len(file, start_blk, root_blk) {
        Ok(n) => n,
        Err(e) => {
            return Err(e);
        },
    };
    let mut lo: u64 = 0;
    let mut hi: u64 = n;
    while lo < hi
        invariant
            lo <= hi <= n,
            index_count(file@, start_blk, root_blk) == Some(n as int),
            index_search(file@, start_blk, lo as int, hi as int, *key) == index_search(
                file@,
                start_blk,
                0,
                n as int,
                *key,
            ),
        decreases hi - lo,
    {
        let mid: u64 = lo + (hi - lo) / 2;
        proof {
            lemma_entry_within(file@, start_blk, root_blk, mid as int);
        }
        let (k, v) = index_entry(file, start_blk, mid);
        if k == *key {
            return Ok(Some(v));
        }
        if k.lt(key) {
            lo = mid + 1;
        } else {
            hi = mid;
        }
    }
    Ok(None)
}

/// Most bytes of entries that an index holds.
pub const MAX_INDEX_BYTES: u64 = 0x1a00_0000_0000;

/// Builds an index from entries that come in increasing key order.
pub struct IndexBuilder {
    /// The entries so far, packed.
    pub buf: Vec<u8>,
    /// Number of entries so far.
    pub count: u64,
    /// Key of the last entry, if there is one.
    pub last_key: Option<Key>,
}

impl IndexBuilder {
    /// Key of entry `i`.
    pub open spec fn key(&self, i: int) -> Key {
        Key::at(self.buf@, i * ENTRY_SIZE as int)
    }

    /// Value of entry `i`.
    pub open spec fn value(&self, i: int) -> u64 {
        u64_at(self.buf@, i * ENTRY_SIZE as int + KEY_SIZE as int)
    }

    /// The builder holds `count` whole entries in strictly increasing key
    /// order and remembers the key of the last one.
    pub open spec fn wf(&self) -> bool {
        &&& self.buf@.len() == self.count as int * ENTRY_SIZE as int
        &&& self.buf@.len() <= MAX_INDEX_BYTES
        &&& forall|i: int, j: int|
            0 <= i < j < self.count ==> #[trigger] self.key(i).value() < #[trigger] self.key(
                j,
            ).value()
        &&& match self.last_key {
            None => self.count == 0,
            Some(k) => self.count > 0 && self.key(self.count as int - 1) == k,
        }
    }

    /// Whether `key` may come next: it is ordered after the last key.
    pub open spec fn spec_accepts(&self, key: Key) -> bool {
        match self.last_key {
            None => true,
            Some(k) => k.value() < key.value(),
        }
    }

    /// An index without entries.
    pub fn new() -> (b: IndexBuilder)
        ensures
            b.wf(),
            b.count == 0,
            b.buf@.len() == 0,
    {
        IndexBuilder { buf: Vec::new(), count: 0, last_key: None }
    }

    /// Whether `key` may come next: it is ordered after the last key.
    pub fn accepts(&self, key: &Key) -> (r: bool)
        ensures
            r == self.spec_accepts(*key),
    {
        match &self.last_key {
            None => true,
            Some(k) => k.lt(key),
        }
    }

    /// Appends an entry. The key is ordered after the last one.
    pub fn append(&mut self, key: &Key, value: u64)
        requires
            old(self).wf(),
            old(self).spec_accepts(*key),
            old(self).buf@.len() + ENTRY_SIZE <= MAX_INDEX_BYTES,
        ensures
            final(self).wf(),
            final(self).count == old(self).count + 1,
            final(self).buf@ == old(self).buf@ + key.bytes() + be64(value),
            final(self).key(old(self).count as int) == *key,
            final(self).value(old(self).count as int) == value,
            forall|i: int|
                0 <= i < old(self).count ==> #[trigger] final(self).key(i) == old(self).key(i)
                    && final(self).value(i) == old(self).value(i),
    {
        let ghost n = self.count as int;
        let ghost before = self.buf@;
        assert(ENTRY_SIZE == 26 && KEY_SIZE == 18);
        key.write_to(&mut self.buf);
        put_u64(&mut self.buf, value);
        self.count = self.count + 1;
        self.last_key = Some(*key);
        proof {
            let after = self.buf@;
            assert(after.len() == before.len() + 26);
            assert(after.subrange(n * 26, n * 26 + 18) =~= key.bytes());
            assert(after.subrange(n * 26 + 18, n * 26 + 26) =~= be64(value));
            Key::lemma_at_bytes(after, n * 26, *key);
            lemma_u64_at_be64(after, n * 26 + 18, value);
            assert forall|i: int| 0 <= i < n implies #[trigger] self.key(i) == old(self).key(i)
                && self.value(i) == old(self).value(i) by {
                assert(before.subrange(i * 26, i * 26 + 26) =~= after.subrange(
                    i * 26,
                    i * 26 + 26,
                ));
                lemma_entry_agrees(before, i * 26, after, i * 26);
            }
            assert forall|i: int, j: int| 0 <= i < j < self.count implies #[trigger] self.key(
                i,
            ).value() < #[trigger] self.key(j).value() by {
                if j < n {
                    assert(old(self).key(i).value() < old(self).key(j).value());
                } else if n > 0 {
                    if i < n - 1 {
                        assert(old(self).key(i).value() < old(self).key(n - 1).value());
                    }
                }
            }
        }
    }

    /// Ends the index: the entries, padded with zero bytes to a whole number
    /// of blocks, and after them the root block. Returns the bytes with the
    /// number of blocks that stand before the root block.
    pub fn finish(self) -> (r: (u32, Vec<u8>))
        requires
            self.wf(),
        ensures
            r.0 as int * PAGE_SZ as int == round_up_to_block(self.buf@.len() as int),
            r.1@.len() == (r.0 as int + 1) * PAGE_SZ as int,
            r.1@.subrange(0, self.buf@.len() as int) == self.buf@,
            u64_at(r.1@, r.0 as int * PAGE_SZ as int) == self.count,
    {
        let count = self.count;
        let mut blocks = self.buf;
        pad_to_block(&mut blocks);
        let ghost padded = blocks@;
        proof {
            lemma_round_up_bounds(self.buf@.len() as int);
        }
        let root_blk: u32 = (blocks.len() / PAGE_SZ) as u32;
        put_u64(&mut blocks, count);
        let ghost with_count = blocks@;
        pad_to_block(&mut blocks);
        proof {
            lemma_be_lengths(0, 0, count, 0);
            lemma_round_up_after_count(root_blk as int);
            lemma_finish_layout(self.buf@, padded, with_count, blocks@, count);
        }
        (root_blk, blocks)
    }
}

/// Rounding a length up to whole blocks gives a multiple of the block size
/// that is less than one block above the length.
pub proof fn lemma_round_up_bounds(len: int)
    requires
        0 <= len,
    ensures
        len <= round_up_to_block(len) < len + PAGE_SZ,
        round_up_to_block(len) % PAGE_SZ as int == 0,
        round_up_to_block(len) / PAGE_SZ as int * PAGE_SZ as int == round_up_to_block(len),
{
    let q = (len + 8191) / 8192;
    assert(q * 8192 <= len + 8191 < q * 8192 + 8192);
    assert(round_up_to_block(len) == q * 8192);
    assert((q * 8192) % 8192 == 0) by (nonlinear_arith);
    assert((q * 8192) / 8192 == q) by (nonlinear_arith);
}

/// Eight bytes after `blocks` whole blocks round up to one block more.
proof fn lemma_round_up_after_count(blocks: int)
    requires
        0 <= blocks,
    ensures
        round_up_to_block(blocks * PAGE_SZ as int + 8) == (blocks + 1) * PAGE_SZ as int,
{
    let len = blocks * 8192 + 8;
    let q = (len + 8191) / 8192;
    assert(q * 8192 <= len + 8191 < q * 8192 + 8192);
}

/// What the bytes of a finished index hold: the entries at the start, and
/// their number where the padded entries end.
proof fn lemma_finish_layout(
    entries: Seq<u8>,
    padded: Seq<u8>,
    with_count: Seq<u8>,
    blocks: Seq<u8>,
    count: u64,
)
    requires
        entries.len() <= padded.len(),
        padded.subrange(0, entries.len() as int) == entries,
        with_count == padded + be64(count),
        be64(count).len() == 8,
        with_count.len() <= blocks.len(),
        blocks.subrange(0, with_count.len() as int) == with_count,
    ensures
        blocks.subrange(0, entries.len() as int) == entries,
        u64_at(blocks, padded.len() as int) == count,
{
    let p = padded.len() as int;
    let b = entries.len() as int;
    let w = with_count.len() as int;
    assert(blocks.subrange(p, p + 8) =~= be64(count)) by {
        assert forall|i: int| 0 <= i < 8 implies blocks[p + i] == be64(count)[i] by {
            assert(blocks.subrange(0, w)[p + i] == blocks[p + i]);
        }
    }
    lemma_u64_at_be64(blocks, p, count);
    assert(blocks.subrange(0, b) =~= entries) by {
        assert forall|i: int| 0 <= i < b implies blocks[i] == entries[i] by {
            assert(blocks.subrange(0, w)[i] == blocks[i]);
            assert(padded.subrange(0, b)[i] == padded[i]);
        }
    }
}

/// An entry read at one place is the entry read at another place that holds
/// the same twenty-six bytes.
pub proof fn lemma_entry_agrees(s1: Seq<u8>, at1: int, s2: Seq<u8>, at2: int)
    requires
        0 <= at1,
        at1 + ENTRY_SIZE <= s1.len(),
        0 <= at2,
        at2 + ENTRY_SIZE <= s2.len(),
        s1.subrange(at1, at1 + ENTRY_SIZE) == s2.subrange(at2, at2 + ENTRY_SIZE),
    ensures
        Key::at(s1, at1) == Key::at(s2, at2),
        u64_at(s1, at1 + KEY_SIZE as int) == u64_at(s2, at2 + KEY_SIZE as int),
{
    let w1 = s1.subrange(at1, at1 + 26);
    let w2 = s2.subrange(at2, at2 + 26);
    assert(s1[at1 + 0] == w1[0] && s2[at2 + 0] == w2[0]);
    assert(s1[at1 + 1] == w1[1] && s2[at2 + 1] == w2[1]);
    assert(s1[at1 + 2] == w1[2] && s2[at2 + 2] == w2[2]);
    assert(s1[at1 + 3] == w1[3] && s2[at2 + 3] == w2[3]);
    assert(s1[at1 + 4] == w1[4] && s2[at2 + 4] == w2[4]);
    assert(s1[at1 + 5] == w1[5] && s2[at2 + 5] == w2[5]);
    assert(s1[at1 + 6] == w1[6] && s2[at2 + 6] == w2[6]);
    assert(s1[at1 + 7] == w1[7] && s2[at2 + 7] == w2[7]);
    assert(s1[at1 + 8] == w1[8] && s2[at2 + 8] == w2[8]);
    assert(s1[at1 + 9] == w1[9] && s2[at2 + 9] == w2[9]);
    assert(s1[at1 + 10] == w1[10] && s2[at2 + 10] == w2[10]);
    assert(s1[at1 + 11] == w1[11] && s2[at2 + 11] == w2[11]);
    assert(s1[at1 + 12] == w1[12] && s2[at2 + 12] == w2[12]);
    assert(s1[at1 + 13] == w1[13] && s2[at2 + 13] == w2[13]);
    assert(s1[at1 + 14] == w1[14] && s2[at2 + 14] == w2[14]);
    assert(s1[at1 + 15] == w1[15] && s2[at2 + 15] == w2[15]);
    assert(s1[at1 + 16] == w1[16] && s2[at2 + 16] == w2[16]);
    assert(s1[at1 + 17] == w1[17] && s2[at2 + 17] == w2[17]);
    assert(s1[at1 + 18] == w1[18] && s2[at2 + 18] == w2[18]);
    assert(s1[at1 + 19] == w1[19] && s2[at2 + 19] == w2[19]);
    assert(s1[at1 + 20] == w1[20] && s2[at2 + 20] == w2[20]);
    assert(s1[at1 + 21] == w1[21] && s2[at2 + 21] == w2[21]);
    assert(s1[at1 + 22] == w1[22] && s2[at2 + 22] == w2[22]);
    assert(s1[at1 + 23] == w1[23] && s2[at2 + 23] == w2[23]);
    assert(s1[at1 + 24] == w1[24] && s2[at2 + 24] == w2[24]);
    assert(s1[at1 + 25] == w1[25] && s2[at2 + 25] == w2[25]);
}

} // verus!
