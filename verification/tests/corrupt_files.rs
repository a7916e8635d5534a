use image_layer::blob_ref::BlobRef;
use image_layer::disk_index::IndexBuilder;
use image_layer::error::LayerError;
use image_layer::key::{Key, KeyRange, Lsn, LsnRange, TenantId, TimelineId};
use image_layer::layer::{ImageFileName, ImageLayer, ImageLayerInner, Origin};
use image_layer::reconstruct::{ValueReconstructResult, ValueReconstructState};
use image_layer::summary::PAGE_SZ;
use image_layer::writer::ImageLayerWriter;

fn key(n: u32) -> Key {
    Key { field1: 0, field2: 0, field3: 0, field4: 0, field5: 0, field6: n }
}

fn layer_over(file: Option<Vec<u8>>, start: u32, root: u32) -> ImageLayer {
    ImageLayer {
        origin: Origin::FromConfig,
        tenantid: TenantId(1),
        timelineid: TimelineId(2),
        key_range: KeyRange { start: key(0), end: key(100) },
        lsn: Lsn(5),
        inner: ImageLayerInner { loaded: true, index_start_blk: start, index_root_blk: root, file },
    }
}

fn get(layer: &ImageLayer, n: u32) -> (Result<ValueReconstructResult, LayerError>, bool) {
    let mut state = ValueReconstructState::new();
    let range = LsnRange { start: Lsn(5), end: Lsn(6) };
    let r = layer.get_value_reconstruct_data(key(n), range, &mut state);
    (r, state.img.is_some())
}

fn file_with_index(values: &[u8], entries: &[(u32, u64)]) -> (Vec<u8>, u32) {
    let mut file = vec![0u8; PAGE_SZ];
    file.extend_from_slice(values);
    file.resize(2 * PAGE_SZ, 0);
    let mut builder = IndexBuilder::new();
    for (n, word) in entries {
        builder.append(&key(*n), *word);
    }
    let (root, blocks) = builder.finish();
    file.extend_from_slice(&blocks);
    (file, root)
}

#[test]
fn loaded_layer_without_a_file() {
    let layer = layer_over(None, 1, 0);
    assert_eq!(get(&layer, 1), (Err(LayerError::NotOpen), false));
    assert_eq!(layer.dump(true).err(), Some(LayerError::NotOpen));
}

#[test]
fn lookup_with_a_bad_index_pointer() {
    let (file, root) = file_with_index(&[1, b'x'], &[(1, BlobRef::new(PAGE_SZ as u64, false).0)]);
    let good = layer_over(Some(file.clone()), 2, root);
    assert_eq!(get(&good, 1), (Ok(ValueReconstructResult::Complete), true));
    let bad = layer_over(Some(file), 2, root + 1);
    assert_eq!(get(&bad, 1), (Err(LayerError::CorruptIndex), false));
    assert_eq!(bad.dump(true).err(), Some(LayerError::CorruptIndex));
}

#[test]
fn lookup_of_a_reference_beyond_the_file() {
    let far = 1u64 << 40;
    let (file, root) = file_with_index(&[1, b'x'], &[(1, BlobRef::new(far, false).0)]);
    let layer = layer_over(Some(file), 2, root);
    assert_eq!(get(&layer, 1), (Err(LayerError::BlobRead { offset: far }), false));
    assert_eq!(get(&layer, 2), (Ok(ValueReconstructResult::Missing), false));
}

#[test]
fn lookup_of_a_blob_that_runs_over_the_end() {
    let last = 4 * PAGE_SZ as u64 - 1;
    let (mut file, root) = file_with_index(&[1, b'x'], &[(1, BlobRef::new(last, false).0)]);
    assert_eq!(file.len() as u64, last + 1);
    let layer = layer_over(Some(file.clone()), 2, root);
    assert_eq!(get(&layer, 1), (Ok(ValueReconstructResult::Complete), true));
    file[last as usize] = 5;
    let layer = layer_over(Some(file), 2, root);
    assert_eq!(get(&layer, 1), (Err(LayerError::BlobRead { offset: last }), false));
}

#[test]
fn lookup_of_a_raw_blob_flagged_as_compressed() {
    let at = PAGE_SZ as u64;
    let (file, root) = file_with_index(&[3, b'a', b'b', b'c'], &[(7, BlobRef::new(at, true).0)]);
    let layer = layer_over(Some(file), 2, root);
    assert_eq!(get(&layer, 7), (Err(LayerError::Decompress { offset: at }), false));
}

#[test]
fn lookup_keeps_an_earlier_image_when_the_key_is_missing() {
    let range = KeyRange { start: key(0), end: key(100) };
    let mut writer = ImageLayerWriter::new(TimelineId(2), TenantId(1), &range, Lsn(5));
    writer.put_image(key(3), b"three").unwrap();
    let (_, file) = writer.finish();
    let name = ImageFileName { key_range: range, lsn: Lsn(5) };
    let mut layer = ImageLayer::new(TimelineId(2), TenantId(1), &name);
    layer.attach_file(file);
    layer.load_inner().unwrap();
    let mut state = ValueReconstructState::new();
    let lsns = LsnRange { start: Lsn(5), end: Lsn(9) };
    assert_eq!(
        layer.get_value_reconstruct_data(key(3), lsns, &mut state),
        Ok(ValueReconstructResult::Complete)
    );
    assert_eq!(
        layer.get_value_reconstruct_data(key(4), lsns, &mut state),
        Ok(ValueReconstructResult::Missing)
    );
    let (lsn, img) = state.img.unwrap();
    assert_eq!(lsn, Lsn(5));
    assert_eq!(&img[..], b"three");
}

#[test]
fn writer_without_compression_stores_raw() {
    let range = KeyRange { start: key(0), end: key(100) };
    let mut writer = ImageLayerWriter::new(TimelineId(2), TenantId(1), &range, Lsn(5));
    writer.compression_level = None;
    let long = vec![b'z'; 4000];
    assert_eq!(writer.put_image(key(1), &long), Ok(()));
    let (handle, file) = writer.finish();
    assert_eq!(handle.inner.index_start_blk, 2);
    assert_eq!(&file[PAGE_SZ..PAGE_SZ + 4], &[0x80, 0, 0x0f, 0xa0]);
    assert_eq!(&file[PAGE_SZ + 4..PAGE_SZ + 4004], &long[..]);
}
