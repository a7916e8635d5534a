use image_layer::blob_ref::BlobRef;

#[test]
fn blob_ref_packs_offset_and_flag() {
    let r = BlobRef::new(8192, true);
    assert_eq!(r.0, 16385);
    assert_eq!(r.pos(), 8192);
    assert!(r.compressed());
    let r = BlobRef::new(8192, false);
    assert_eq!(r.0, 16384);
    assert_eq!(r.pos(), 8192);
    assert!(!r.compressed());
}

#[test]
fn blob_ref_of_zero() {
    let r = BlobRef::new(0, false);
    assert_eq!(r.0, 0);
    assert_eq!(r.pos(), 0);
    assert!(!r.compressed());
}

#[test]
fn blob_ref_holds_63_bits() {
    let top = (1u64 << 63) - 1;
    let r = BlobRef::new(top, true);
    assert_eq!(r.0, u64::MAX);
    assert_eq!(r.pos(), top);
    assert!(r.compressed());
}

#[test]
fn blob_ref_decodes_any_word() {
    let r = BlobRef(0xdead_beef);
    assert_eq!(r.pos(), 0xdead_beef >> 1);
    assert!(r.compressed());
}
