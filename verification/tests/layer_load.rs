use image_layer::error::LayerError;
use image_layer::key::{Key, KeyRange, Lsn, LsnRange, TenantId, TimelineId};
use image_layer::layer::{ImageFileName, ImageLayer, ImageLayerInner, Origin};
use image_layer::load::{next_load_action, LoadAction, LockMode};
use image_layer::reconstruct::{ValueReconstructResult, ValueReconstructState};
use image_layer::summary::{Summary, PAGE_SZ, SUMMARY_LEN};
use image_layer::writer::ImageLayerWriter;

fn key(n: u32) -> Key {
    Key { field1: 0, field2: 0x67f, field3: 0x32be, field4: 0x4000, field5: 0, field6: n }
}

fn range(from: u32, to: u32) -> KeyRange {
    KeyRange { start: key(from), end: key(to) }
}

fn sample_file() -> Vec<u8> {
    let mut writer = ImageLayerWriter::new(TimelineId(7), TenantId(9), &range(0, 100), Lsn(42));
    writer.put_image(key(10), b"AAA").unwrap();
    writer.put_image(key(50), &vec![b'B'; 3000]).unwrap();
    writer.finish().1
}

fn handle(timeline: u128, tenant: u128, from: u32, to: u32, lsn: u64) -> ImageLayer {
    let name = ImageFileName { key_range: range(from, to), lsn: Lsn(lsn) };
    ImageLayer::new(TimelineId(timeline), TenantId(tenant), &name)
}

#[test]
fn fresh_handle_is_not_loaded() {
    let layer = handle(7, 9, 0, 100, 42);
    assert_eq!(layer.origin, Origin::FromConfig);
    assert_eq!(layer.get_timeline_id(), TimelineId(7));
    assert_eq!(layer.get_tenant_id(), TenantId(9));
    assert_eq!(layer.get_key_range(), range(0, 100));
    assert!(!layer.inner.loaded);
    assert!(layer.inner.file.is_none());
    assert_eq!(layer.inner.index_start_blk, 0);
    assert_eq!(layer.inner.index_root_blk, 0);
    let inner = ImageLayerInner::new();
    assert!(!inner.loaded && inner.file.is_none());
}

#[test]
fn load_takes_the_index_pointers_from_the_file() {
    let mut layer = handle(7, 9, 0, 100, 42);
    layer.attach_file(sample_file());
    assert_eq!(layer.load_inner(), Ok(()));
    assert!(layer.inner.loaded);
    assert_eq!(layer.inner.index_start_blk, 2);
    assert_eq!(layer.inner.index_root_blk, 1);
}

#[test]
fn load_twice_gives_the_same_pointers() {
    let mut layer = handle(7, 9, 0, 100, 42);
    layer.attach_file(sample_file());
    layer.load_inner().unwrap();
    let first = (layer.inner.index_start_blk, layer.inner.index_root_blk);
    layer.load_inner().unwrap();
    assert!(layer.inner.loaded);
    assert_eq!((layer.inner.index_start_blk, layer.inner.index_root_blk), first);
    let mut other = handle(7, 9, 0, 100, 42);
    other.attach_file(sample_file());
    other.load_inner().unwrap();
    assert_eq!((other.inner.index_start_blk, other.inner.index_root_blk), first);
}

#[test]
fn load_without_a_file_fails_and_can_be_tried_again() {
    let mut layer = handle(7, 9, 0, 100, 42);
    assert_eq!(layer.load_inner(), Err(LayerError::NotOpen));
    assert!(!layer.inner.loaded);
    layer.attach_file(sample_file());
    assert_eq!(layer.load_inner(), Ok(()));
    assert!(layer.inner.loaded);
}

#[test]
fn load_of_a_short_file_fails() {
    let mut layer = handle(7, 9, 0, 100, 42);
    let mut file = sample_file();
    file.truncate(PAGE_SZ - 1);
    layer.attach_file(file);
    assert_eq!(layer.load_inner(), Err(LayerError::Truncated));
    assert!(!layer.inner.loaded);
    assert!(layer.inner.file.is_none());
}

#[test]
fn file_of_a_loaded_layer_is_not_replaced() {
    let mut layer = handle(7, 9, 0, 100, 42);
    let file = sample_file();
    layer.attach_file(file.clone());
    layer.load_inner().unwrap();
    layer.attach_file(vec![1, 2, 3]);
    assert_eq!(layer.inner.file, Some(file));
    assert!(layer.inner.loaded);
}

#[test]
fn failed_load_is_not_kept() {
    let mut layer = handle(7, 9, 0, 100, 42);
    let good = sample_file();
    // The file is damaged at first: another LSN stands in its summary.
    let mut bad = good.clone();
    bad[79] = 41;
    layer.attach_file(bad);
    assert_eq!(layer.load_inner(), Err(LayerError::SummaryMismatch));
    assert!(!layer.inner.loaded);
    assert!(layer.inner.file.is_none());
    assert_eq!(layer.load_inner(), Err(LayerError::NotOpen));
    // It is valid when the caller comes again.
    layer.attach_file(good);
    assert_eq!(layer.load_inner(), Ok(()));
    assert!(layer.inner.loaded);
    assert_eq!(layer.inner.index_start_blk, 2);
    assert_eq!(layer.inner.index_root_blk, 1);
}

#[test]
fn short_file_is_read_again_after_it_has_grown() {
    let mut layer = handle(7, 9, 0, 100, 42);
    let good = sample_file();
    layer.attach_file(good[..100].to_vec());
    assert_eq!(layer.load_inner(), Err(LayerError::Truncated));
    assert!(layer.inner.file.is_none());
    layer.attach_file(good);
    assert_eq!(layer.load_inner(), Ok(()));
}

#[test]
fn load_rejects_another_tenant() {
    let mut layer = handle(7, 8, 0, 100, 42);
    layer.attach_file(sample_file());
    assert_eq!(layer.load_inner(), Err(LayerError::SummaryMismatch));
    assert!(!layer.inner.loaded);
    assert_eq!(layer.inner.index_start_blk, 0);
}

#[test]
fn load_rejects_another_timeline() {
    let mut layer = handle(6, 9, 0, 100, 42);
    layer.attach_file(sample_file());
    assert_eq!(layer.load_inner(), Err(LayerError::SummaryMismatch));
}

#[test]
fn load_rejects_another_key_range() {
    let mut layer = handle(7, 9, 0, 101, 42);
    layer.attach_file(sample_file());
    assert_eq!(layer.load_inner(), Err(LayerError::SummaryMismatch));
    let mut layer = handle(7, 9, 1, 100, 42);
    layer.attach_file(sample_file());
    assert_eq!(layer.load_inner(), Err(LayerError::SummaryMismatch));
}

#[test]
fn load_rejects_another_lsn() {
    let mut layer = handle(7, 9, 0, 100, 43);
    layer.attach_file(sample_file());
    assert_eq!(layer.load_inner(), Err(LayerError::SummaryMismatch));
}

#[test]
fn load_rejects_bad_magic_and_version() {
    let mut file = sample_file();
    file[1] ^= 1;
    let mut layer = handle(7, 9, 0, 100, 42);
    layer.attach_file(file);
    assert_eq!(layer.load_inner(), Err(LayerError::SummaryMismatch));
    let mut file = sample_file();
    file[3] += 1;
    let mut layer = handle(7, 9, 0, 100, 42);
    layer.attach_file(file);
    assert_eq!(layer.load_inner(), Err(LayerError::SummaryMismatch));
}

#[test]
fn handle_for_a_path_takes_the_summary_as_it_is() {
    let file = sample_file();
    let mut layer = ImageLayer::new_for_path(&file[..PAGE_SZ]).unwrap();
    assert_eq!(layer.origin, Origin::FromPath);
    assert_eq!(layer.timelineid, TimelineId(7));
    assert_eq!(layer.tenantid, TenantId(9));
    assert_eq!(layer.key_range, range(0, 100));
    assert_eq!(layer.lsn, Lsn(42));
    assert!(!layer.inner.loaded);
    layer.attach_file(file);
    assert_eq!(layer.load_inner(), Ok(()));
    assert_eq!(layer.inner.index_start_blk, 2);
    let mut state = ValueReconstructState::new();
    let range = LsnRange { start: Lsn(42), end: Lsn(43) };
    let got = layer.get_value_reconstruct_data(key(50), range, &mut state);
    assert_eq!(got, Ok(ValueReconstructResult::Complete));
    let (lsn, img) = state.img.unwrap();
    assert_eq!(lsn, Lsn(42));
    assert_eq!(&img[..], &vec![b'B'; 3000][..]);
}

#[test]
fn handle_for_a_path_needs_the_magic_and_the_version() {
    let mut file = sample_file();
    file[0] = 0;
    assert_eq!(ImageLayer::new_for_path(&file[..PAGE_SZ]).err(), Some(LayerError::SummaryMismatch));
    let mut file = sample_file();
    file[3] += 1;
    assert_eq!(ImageLayer::new_for_path(&file[..PAGE_SZ]).err(), Some(LayerError::SummaryMismatch));
    assert_eq!(ImageLayer::new_for_path(&file[..SUMMARY_LEN]).err(), Some(LayerError::SummaryMismatch));
}

#[test]
fn load_by_path_needs_the_magic_and_the_version() {
    let good = sample_file();
    let mut layer = ImageLayer::new_for_path(&good[..PAGE_SZ]).unwrap();
    let mut file = good.clone();
    file[1] ^= 0xff;
    layer.attach_file(file);
    assert_eq!(layer.load_inner(), Err(LayerError::SummaryMismatch));
    assert!(!layer.inner.loaded);
    let mut file = good.clone();
    file[2] = 9;
    layer.attach_file(file);
    assert_eq!(layer.load_inner(), Err(LayerError::SummaryMismatch));
    // Identity, key range and LSN are taken as the file has them.
    let mut file = good.clone();
    file[19] ^= 1;
    file[75] ^= 1;
    layer.attach_file(file);
    assert_eq!(layer.load_inner(), Ok(()));
    assert!(layer.inner.loaded);
}

#[test]
fn handle_for_a_path_needs_a_whole_summary() {
    let file = sample_file();
    assert_eq!(ImageLayer::new_for_path(&file[..SUMMARY_LEN - 1]).err(), Some(LayerError::Truncated));
    assert!(ImageLayer::new_for_path(&file[..SUMMARY_LEN]).is_ok());
    assert_eq!(Summary::des_prefix(&[]).err(), Some(LayerError::Truncated));
}

#[test]
fn lsn_range_is_the_single_lsn() {
    let layer = handle(7, 9, 0, 100, 42);
    let range = layer.get_lsn_range();
    assert_eq!(range, LsnRange { start: Lsn(42), end: Lsn(43) });
    let layer = handle(7, 9, 0, 100, 0);
    assert_eq!(layer.get_lsn_range(), LsnRange { start: Lsn(0), end: Lsn(1) });
}

#[test]
fn image_layer_is_neither_incremental_nor_in_memory() {
    let layer = handle(7, 9, 0, 100, 42);
    assert!(!layer.is_incremental());
    assert!(!layer.is_in_memory());
}

#[test]
fn file_name_of_a_layer() {
    let start = Key { field1: 0, field2: 0x67f, field3: 0x32be, field4: 0x4000, field5: 0, field6: 0x70b6 };
    let end = Key { field6: 0x80b6, ..start };
    let name = ImageFileName { key_range: KeyRange { start, end }, lsn: Lsn(0x346bc568) };
    let text = "000000067F000032BE0000400000000070B6-000000067F000032BE0000400000000080B6__00000000346BC568";
    assert_eq!(name.to_string(), text);
    let layer = ImageLayer::new(TimelineId(1), TenantId(2), &name);
    assert_eq!(layer.filename(), text);
    assert_eq!(layer.layer_name(), name);
}

#[test]
fn file_name_at_odds_with_the_summary() {
    let file = sample_file();
    let by_path = ImageLayer::new_for_path(&file[..PAGE_SZ]).unwrap();
    let name = by_path.filename();
    assert_eq!(
        name,
        "000000067F000032BE000040000000000000-000000067F000032BE000040000000000064__000000000000002A"
    );
    assert!(!by_path.filename_differs(&name));
    assert!(by_path.filename_differs("layer.bin"));
    assert!(by_path.filename_differs(&name.to_lowercase()));
    let by_name = handle(7, 9, 0, 100, 42);
    assert!(!by_name.filename_differs("layer.bin"));
}

#[test]
fn dump_lists_the_entries_in_key_order() {
    let mut layer = handle(7, 9, 0, 100, 42);
    assert_eq!(layer.dump(true).err(), Some(LayerError::NotLoaded));
    assert_eq!(layer.dump(false).unwrap().len(), 0);
    layer.attach_file(sample_file());
    layer.load_inner().unwrap();
    assert_eq!(layer.dump(false).unwrap().len(), 0);
    let entries = layer.dump(true).unwrap();
    assert_eq!(entries.len(), 2);
    assert_eq!(entries[0].key, "000000067f000032be00004000000000000a");
    assert_eq!(entries[0].pos, PAGE_SZ as u64);
    assert!(!entries[0].compressed);
    assert_eq!(entries[1].key, "000000067f000032be000040000000000032");
    assert_eq!(entries[1].pos, PAGE_SZ as u64 + 4);
    assert!(entries[1].compressed);
}

#[test]
fn steps_of_a_shared_load() {
    assert_eq!(next_load_action(LockMode::Shared, true), LoadAction::Proceed);
    assert_eq!(next_load_action(LockMode::Shared, false), LoadAction::TakeExclusive);
    assert_eq!(next_load_action(LockMode::Exclusive, false), LoadAction::Load);
    assert_eq!(next_load_action(LockMode::Exclusive, true), LoadAction::TakeShared);
}
