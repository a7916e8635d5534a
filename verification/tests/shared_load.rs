use image_layer::key::{Key, KeyRange, Lsn, LsnRange, TenantId, TimelineId};
use image_layer::layer::{ImageFileName, ImageLayer};
use image_layer::load::{next_load_action, LoadAction, LockMode};
use image_layer::reconstruct::{ValueReconstructResult, ValueReconstructState};
use image_layer::writer::ImageLayerWriter;
use std::sync::RwLock;

fn key(n: u32) -> Key {
    Key { field1: 0, field2: 0, field3: 0, field4: 0, field5: 0, field6: n }
}

fn load_and_get(layer: &RwLock<ImageLayer>, file: &[u8], n: u32) -> (u32, u32, Option<Vec<u8>>) {
    let mut mode = LockMode::Shared;
    let mut rounds = 0;
    loop {
        match mode {
            LockMode::Shared => {
                rounds += 1;
                assert!(rounds <= 2);
                let guard = layer.read().unwrap();
                if next_load_action(mode, guard.inner.loaded) == LoadAction::Proceed {
                    let mut state = ValueReconstructState::new();
                    let range = LsnRange { start: Lsn(42), end: Lsn(43) };
                    let got = guard.get_value_reconstruct_data(key(n), range, &mut state).unwrap();
                    let value = match got {
                        ValueReconstructResult::Complete => Some(state.img.unwrap().1.to_vec()),
                        _ => None,
                    };
                    return (guard.inner.index_start_blk, guard.inner.index_root_blk, value);
                }
                mode = LockMode::Exclusive;
            }
            LockMode::Exclusive => {
                let mut guard = layer.write().unwrap();
                if next_load_action(mode, guard.inner.loaded) == LoadAction::Load {
                    guard.attach_file(file.to_vec());
                    guard.load_inner().unwrap();
                }
                mode = LockMode::Shared;
            }
        }
    }
}

#[test]
fn first_lookups_of_many_callers_agree() {
    let range = KeyRange { start: key(0), end: key(100) };
    let mut writer = ImageLayerWriter::new(TimelineId(7), TenantId(9), &range, Lsn(42));
    for n in 0..50u32 {
        writer.put_image(key(n * 2), &vec![n as u8; 200 + n as usize]).unwrap();
    }
    let (_, file) = writer.finish();
    let name = ImageFileName { key_range: range, lsn: Lsn(42) };
    let layer = RwLock::new(ImageLayer::new(TimelineId(7), TenantId(9), &name));
    let results: Vec<(u32, u32, Option<Vec<u8>>)> =
        (0..8u32).map(|t| load_and_get(&layer, &file, t * 2)).collect();
    for (t, (start, root, value)) in results.iter().enumerate() {
        assert_eq!((*start, *root), (results[0].0, results[0].1));
        assert_eq!(value.as_deref(), Some(&vec![t as u8; 200 + t][..]));
    }
    assert!(layer.read().unwrap().inner.loaded);
}

#[test]
fn second_caller_finds_the_layer_loaded_by_the_first() {
    let range = KeyRange { start: key(0), end: key(100) };
    let mut writer = ImageLayerWriter::new(TimelineId(7), TenantId(9), &range, Lsn(42));
    writer.put_image(key(1), b"one").unwrap();
    let (_, file) = writer.finish();
    let name = ImageFileName { key_range: range, lsn: Lsn(42) };
    let layer = RwLock::new(ImageLayer::new(TimelineId(7), TenantId(9), &name));
    // Both callers look at the layer under the shared lock and find it not loaded.
    let first = next_load_action(LockMode::Shared, layer.read().unwrap().inner.loaded);
    let second = next_load_action(LockMode::Shared, layer.read().unwrap().inner.loaded);
    assert_eq!(first, LoadAction::TakeExclusive);
    assert_eq!(second, LoadAction::TakeExclusive);
    // The first one gets the exclusive lock and loads.
    {
        let mut guard = layer.write().unwrap();
        assert_eq!(next_load_action(LockMode::Exclusive, guard.inner.loaded), LoadAction::Load);
        guard.attach_file(file.clone());
        guard.load_inner().unwrap();
    }
    let pointers = {
        let guard = layer.read().unwrap();
        (guard.inner.index_start_blk, guard.inner.index_root_blk)
    };
    // The second one gets it afterwards and has nothing to do.
    {
        let guard = layer.write().unwrap();
        assert_eq!(
            next_load_action(LockMode::Exclusive, guard.inner.loaded),
            LoadAction::TakeShared
        );
    }
    let guard = layer.read().unwrap();
    assert_eq!(next_load_action(LockMode::Shared, guard.inner.loaded), LoadAction::Proceed);
    assert_eq!((guard.inner.index_start_blk, guard.inner.index_root_blk), pointers);
}
