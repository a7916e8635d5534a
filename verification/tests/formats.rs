use image_layer::be_bytes::{get_u128, get_u16, get_u32, get_u64, put_u128, put_u16, put_u32, put_u64};
use image_layer::blob_io::{append_blob, append_bytes, copy_range, pad_to_block, read_blob, MAX_BLOB_LEN};
use image_layer::blob_ref::BlobRef;
use image_layer::compression::{capacity_for, choose_encoding, decode};
use image_layer::disk_index::{index_entry, index_get, index_len, IndexBuilder};
use image_layer::error::LayerError;
use image_layer::key::{Key, KeyRange, Lsn, TenantId, TimelineId, KEY_SIZE};
use image_layer::layer::read_value;
use image_layer::summary::{Summary, IMAGE_FILE_MAGIC, PAGE_SZ, STORAGE_FORMAT_VERSION, SUMMARY_LEN};

fn least() -> Key {
    Key { field1: 0, field2: 0, field3: 0, field4: 0, field5: 0, field6: 0 }
}

fn key(n: u32) -> Key {
    Key { field1: 1, field2: 2, field3: 3, field4: 4, field5: 5, field6: n }
}

#[test]
fn integers_are_written_most_significant_byte_first() {
    let mut buf = Vec::new();
    put_u16(&mut buf, 0x5a60);
    put_u32(&mut buf, 0x0102_0304);
    put_u64(&mut buf, 0x1122_3344_5566_7788);
    put_u128(&mut buf, 0x0011_2233_4455_6677_8899_aabb_ccdd_eeff);
    assert_eq!(
        buf,
        vec![
            0x5a, 0x60, 1, 2, 3, 4, 0x11, 0x22, 0x33, 0x44, 0x55, 0x66, 0x77, 0x88, 0x00, 0x11,
            0x22, 0x33, 0x44, 0x55, 0x66, 0x77, 0x88, 0x99, 0xaa, 0xbb, 0xcc, 0xdd, 0xee, 0xff
        ]
    );
    assert_eq!(get_u16(&buf, 0), 0x5a60);
    assert_eq!(get_u32(&buf, 2), 0x0102_0304);
    assert_eq!(get_u64(&buf, 6), 0x1122_3344_5566_7788);
    assert_eq!(get_u128(&buf, 14), 0x0011_2233_4455_6677_8899_aabb_ccdd_eeff);
}

#[test]
fn extreme_integers_round_trip() {
    let mut buf = Vec::new();
    put_u16(&mut buf, u16::MAX);
    put_u32(&mut buf, u32::MAX);
    put_u64(&mut buf, u64::MAX);
    put_u128(&mut buf, u128::MAX);
    put_u64(&mut buf, 0);
    assert_eq!(get_u16(&buf, 0), u16::MAX);
    assert_eq!(get_u32(&buf, 2), u32::MAX);
    assert_eq!(get_u64(&buf, 6), u64::MAX);
    assert_eq!(get_u128(&buf, 14), u128::MAX);
    assert_eq!(get_u64(&buf, 30), 0);
}

#[test]
fn key_bytes_and_order() {
    let k = Key { field1: 0x01, field2: 0x0203_0405, field3: 0x0607_0809, field4: 0x0a0b_0c0d, field5: 0x0e, field6: 0x0f10_1112 };
    let mut buf = vec![0xff];
    k.write_to(&mut buf);
    assert_eq!(buf.len(), 1 + KEY_SIZE);
    assert_eq!(&buf[1..], &[1, 2, 3, 4, 5, 6, 7, 8, 9, 10, 11, 12, 13, 14, 15, 16, 17, 18]);
    assert_eq!(Key::read_from(&buf, 1), k);
    assert!(least().lt(&k));
    assert!(least().le(&least()));
    assert!(!k.lt(&k));
    assert!(k.le(&k));
    let bigger = Key { field5: 0x0f, field6: 0, ..k };
    assert!(k.lt(&bigger));
    assert!(!bigger.lt(&k));
    assert!(!bigger.le(&k));
    let first = Key { field1: 2, field2: 0, field3: 0, field4: 0, field5: 0, field6: 0 };
    assert!(k.lt(&first));
}

#[test]
fn key_order_is_the_order_of_the_bytes() {
    let keys = [
        least(),
        key(0),
        key(1),
        key(u32::MAX),
        Key { field5: 6, ..key(0) },
        Key { field4: 5, ..key(0) },
        Key { field3: 4, ..key(0) },
        Key { field2: 3, ..key(0) },
        Key { field1: 2, ..key(0) },
        Key { field1: 255, field2: u32::MAX, field3: u32::MAX, field4: u32::MAX, field5: 255, field6: u32::MAX },
    ];
    for a in &keys {
        for b in &keys {
            let mut ab = Vec::new();
            a.write_to(&mut ab);
            let mut bb = Vec::new();
            b.write_to(&mut bb);
            assert_eq!(a.lt(b), ab < bb);
            assert_eq!(a.le(b), ab <= bb);
        }
    }
}

#[test]
fn key_range_is_half_open() {
    let range = KeyRange { start: key(10), end: key(20) };
    assert!(range.contains(&key(10)));
    assert!(range.contains(&key(19)));
    assert!(!range.contains(&key(20)));
    assert!(!range.contains(&key(9)));
    let empty = KeyRange { start: key(10), end: key(10) };
    assert!(!empty.contains(&key(10)));
}

#[test]
fn summary_bytes() {
    let summary = Summary {
        magic: IMAGE_FILE_MAGIC,
        format_version: STORAGE_FORMAT_VERSION,
        tenantid: TenantId(0x0102),
        timelineid: TimelineId(0x0304),
        key_range: KeyRange { start: key(7), end: key(8) },
        lsn: Lsn(0x2a),
        index_start_blk: 5,
        index_root_blk: 6,
    };
    let bytes = summary.ser();
    assert_eq!(bytes.len(), SUMMARY_LEN);
    assert_eq!(&bytes[..4], &[0x5a, 0x60, 0, 3]);
    assert_eq!(&bytes[18..20], &[1, 2]);
    assert_eq!(&bytes[34..36], &[3, 4]);
    assert_eq!(&bytes[36..54], &[1, 0, 0, 0, 2, 0, 0, 0, 3, 0, 0, 0, 4, 5, 0, 0, 0, 7]);
    assert_eq!(bytes[71], 8);
    assert_eq!(&bytes[72..80], &[0, 0, 0, 0, 0, 0, 0, 0x2a]);
    assert_eq!(&bytes[80..88], &[0, 0, 0, 5, 0, 0, 0, 6]);
    let mut block = bytes.clone();
    block.resize(PAGE_SZ, 0xee);
    assert_eq!(Summary::des_prefix(&block), Ok(summary));
    assert_eq!(Summary::des_prefix(&bytes), Ok(summary));
    assert_eq!(Summary::des_prefix(&bytes[..87]), Err(LayerError::Truncated));
}

#[test]
fn short_blob_has_a_one_byte_header() {
    let mut buf = vec![9, 9];
    let off = append_blob(&mut buf, b"hello");
    assert_eq!(off, 2);
    assert_eq!(buf, vec![9, 9, 5, b'h', b'e', b'l', b'l', b'o']);
    assert_eq!(read_blob(&buf, 2), Ok(b"hello".to_vec()));
    let off = append_blob(&mut buf, b"");
    assert_eq!(off, 8);
    assert_eq!(read_blob(&buf, 8), Ok(vec![]));
    let longest = vec![7u8; 127];
    let off = append_blob(&mut buf, &longest);
    assert_eq!(buf[off], 127);
    assert_eq!(buf.len(), off + 128);
    assert_eq!(read_blob(&buf, off as u64), Ok(longest));
}

#[test]
fn long_blob_has_a_four_byte_header() {
    let data = vec![3u8; 128];
    let mut buf = Vec::new();
    let off = append_blob(&mut buf, &data);
    assert_eq!(off, 0);
    assert_eq!(&buf[..4], &[0x80, 0, 0, 0x80]);
    assert_eq!(buf.len(), 132);
    assert_eq!(read_blob(&buf, 0), Ok(data));
    let data = vec![4u8; 70000];
    let off = append_blob(&mut buf, &data);
    assert_eq!(&buf[off..off + 4], &[0x80, 0x01, 0x11, 0x70]);
    assert_eq!(read_blob(&buf, off as u64), Ok(data));
}

#[test]
fn blob_that_is_not_whole_is_an_error() {
    let mut buf = Vec::new();
    append_blob(&mut buf, b"hello");
    assert_eq!(read_blob(&buf, 6), Err(LayerError::BlobRead { offset: 6 }));
    assert_eq!(read_blob(&buf, u64::MAX), Err(LayerError::BlobRead { offset: u64::MAX }));
    buf.pop();
    assert_eq!(read_blob(&buf, 0), Err(LayerError::BlobRead { offset: 0 }));
    assert_eq!(read_blob(&[0x80, 0, 0], 0), Err(LayerError::BlobRead { offset: 0 }));
    assert_eq!(read_blob(&[0x80, 0, 0, 1], 0), Err(LayerError::BlobRead { offset: 0 }));
    assert_eq!(read_blob(&[0x80, 0, 0, 1, 7], 0), Ok(vec![7]));
}

#[test]
fn bytes_and_blocks() {
    let mut buf = vec![1];
    append_bytes(&mut buf, &[2, 3]);
    assert_eq!(buf, vec![1, 2, 3]);
    assert_eq!(copy_range(&buf, 1, 3), vec![2, 3]);
    assert_eq!(copy_range(&buf, 2, 2), Vec::<u8>::new());
    pad_to_block(&mut buf);
    assert_eq!(buf.len(), PAGE_SZ);
    assert_eq!(&buf[..4], &[1, 2, 3, 0]);
    pad_to_block(&mut buf);
    assert_eq!(buf.len(), PAGE_SZ);
    let mut empty: Vec<u8> = Vec::new();
    pad_to_block(&mut empty);
    assert!(empty.is_empty());
}

#[test]
fn stored_form_is_compressed_only_where_strictly_shorter() {
    let raw = b"0123456789";
    assert_eq!(choose_encoding(raw, Some(vec![1; 9])), (vec![1; 9], true));
    assert_eq!(choose_encoding(raw, Some(vec![1; 10])), (raw.to_vec(), false));
    assert_eq!(choose_encoding(raw, Some(vec![1; 11])), (raw.to_vec(), false));
    assert_eq!(choose_encoding(raw, None), (raw.to_vec(), false));
    assert_eq!(choose_encoding(b"", Some(vec![])), (vec![], false));
    assert_eq!(choose_encoding(b"a", Some(vec![])), (vec![], true));
}

#[test]
fn buffer_size_for_a_frame() {
    assert_eq!(capacity_for(0), Some(0));
    assert_eq!(capacity_for(10), Some(10));
    assert_eq!(capacity_for(MAX_BLOB_LEN as u64), Some(MAX_BLOB_LEN));
    assert_eq!(capacity_for(MAX_BLOB_LEN as u64 + 1), None);
    assert_eq!(capacity_for(u64::MAX), None);
    assert_eq!(capacity_for(u64::MAX - 1), None);
}

#[test]
fn raw_value_decodes_to_itself() {
    assert_eq!(decode(b"abc".to_vec(), false), Some(b"abc".to_vec()));
    assert_eq!(decode(vec![], false), Some(vec![]));
}

#[test]
fn bytes_that_are_no_frame_do_not_decode() {
    assert_eq!(decode(b"abc".to_vec(), true), None);
    assert_eq!(decode(vec![], true), None);
    let mut file = vec![0u8; PAGE_SZ];
    append_blob(&mut file, b"not compressed at all");
    let word = BlobRef::new(PAGE_SZ as u64, true);
    assert_eq!(read_value(&file, word), Err(LayerError::Decompress { offset: PAGE_SZ as u64 }));
    let word = BlobRef::new(PAGE_SZ as u64, false);
    assert_eq!(read_value(&file, word), Ok(b"not compressed at all".to_vec()));
    let word = BlobRef::new(file.len() as u64, false);
    assert_eq!(read_value(&file, word), Err(LayerError::BlobRead { offset: file.len() as u64 }));
}

fn index_file(entries: &[(u32, u64)]) -> (Vec<u8>, u32) {
    let mut builder = IndexBuilder::new();
    for (n, value) in entries {
        assert!(builder.accepts(&key(*n)));
        builder.append(&key(*n), *value);
    }
    let (root, blocks) = builder.finish();
    let mut file = vec![0u8; 3 * PAGE_SZ];
    file.extend_from_slice(&blocks);
    (file, root)
}

#[test]
fn index_finds_what_was_appended() {
    let entries: Vec<(u32, u64)> = (0..1000u32).map(|n| (n * 2, n as u64 * 1000 + 1)).collect();
    let (file, root) = index_file(&entries);
    assert_eq!(root, 4);
    assert_eq!(file.len(), 8 * PAGE_SZ);
    assert_eq!(index_len(&file, 3, root), Ok(1000));
    assert_eq!(index_entry(&file, 3, 999), (key(1998), 999_001));
    for (n, value) in &entries {
        assert_eq!(index_get(&file, 3, root, &key(*n)), Ok(Some(*value)));
        assert_eq!(index_get(&file, 3, root, &key(*n + 1)), Ok(None));
    }
    assert_eq!(index_get(&file, 3, root, &least()), Ok(None));
}

#[test]
fn empty_index() {
    let (file, root) = index_file(&[]);
    assert_eq!(root, 0);
    assert_eq!(file.len(), 4 * PAGE_SZ);
    assert_eq!(index_len(&file, 3, 0), Ok(0));
    assert_eq!(index_get(&file, 3, 0, &key(1)), Ok(None));
}

#[test]
fn index_of_whole_blocks() {
    let entries: Vec<(u32, u64)> = (0..4096u32).map(|n| (n, n as u64)).collect();
    let (file, root) = index_file(&entries);
    assert_eq!(root, 13);
    assert_eq!(index_len(&file, 3, root), Ok(4096));
    assert_eq!(index_get(&file, 3, root, &key(4095)), Ok(Some(4095)));
}

#[test]
fn index_without_a_root_is_corrupt() {
    let (file, root) = index_file(&[(1, 1), (2, 2)]);
    assert_eq!(index_len(&file, 3, root + 1), Err(LayerError::CorruptIndex));
    assert_eq!(index_get(&file, 4, root, &key(1)), Err(LayerError::CorruptIndex));
    assert_eq!(index_len(&file[..file.len() - 1], 3, root), Err(LayerError::CorruptIndex));
    assert_eq!(index_len(&file, u32::MAX, u32::MAX), Err(LayerError::CorruptIndex));
    let mut bad = file.clone();
    bad[4 * PAGE_SZ + 7] = 0xff;
    bad[4 * PAGE_SZ + 6] = 0xff;
    assert_eq!(index_get(&bad, 3, root, &key(1)), Err(LayerError::CorruptIndex));
}
