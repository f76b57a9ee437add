use usagi::bundle::{Bundle, BundleError};

#[test]
fn roundtrip_preserves_files() {
    let mut b = Bundle::new();
    b.insert("main.lua", b"print('hi')".to_vec());
    b.insert("sprites.png", vec![0x89, 0x50, 0x4E, 0x47]);
    b.insert("sfx/jump.wav", vec![1, 2, 3, 4, 5]);

    let buf = b.serialize();

    let decoded = Bundle::deserialize(&buf).unwrap();
    assert_eq!(decoded.get("main.lua"), Some(b"print('hi')".as_slice()));
    assert_eq!(
        decoded.get("sprites.png"),
        Some([0x89, 0x50, 0x4E, 0x47].as_slice())
    );
    assert_eq!(decoded.get("sfx/jump.wav"), Some([1, 2, 3, 4, 5].as_slice()));
    assert_eq!(decoded.file_count(), 3);
}

#[test]
fn deserialize_rejects_non_bundle_bytes() {
    let garbage = b"this is not a bundle at all";
    assert!(Bundle::deserialize(garbage).is_err());
}

#[test]
fn deserialize_reports_each_error_kind() {
    assert_eq!(Bundle::deserialize(b"USAG").err(), Some(BundleError::Truncated));
    assert_eq!(Bundle::deserialize(b"NOTABUNDLExxxxxx").err(), Some(BundleError::NotABundle));
    let mut v = b"USAGIBND".to_vec();
    v.extend_from_slice(&2u32.to_le_bytes());
    v.extend_from_slice(&0u32.to_le_bytes());
    assert_eq!(Bundle::deserialize(&v).err(), Some(BundleError::UnsupportedVersion(2)));
    let mut w = b"USAGIBND".to_vec();
    w.extend_from_slice(&1u32.to_le_bytes());
    w.extend_from_slice(&1u32.to_le_bytes());
    w.extend_from_slice(&1u32.to_le_bytes());
    w.push(0xff);
    w.extend_from_slice(&0u64.to_le_bytes());
    assert_eq!(Bundle::deserialize(&w).err(), Some(BundleError::NonUtf8Name));
    let mut t = b"USAGIBND".to_vec();
    t.extend_from_slice(&1u32.to_le_bytes());
    t.extend_from_slice(&1u32.to_le_bytes());
    assert_eq!(Bundle::deserialize(&t).err(), Some(BundleError::Truncated));
}

#[test]
fn serialized_layout_is_the_documented_format() {
    let mut b = Bundle::new();
    b.insert("a", vec![7, 8]);
    let buf = b.serialize();
    let mut expected = b"USAGIBND".to_vec();
    expected.extend_from_slice(&1u32.to_le_bytes());
    expected.extend_from_slice(&1u32.to_le_bytes());
    expected.extend_from_slice(&1u32.to_le_bytes());
    expected.push(b'a');
    expected.extend_from_slice(&2u64.to_le_bytes());
    expected.extend_from_slice(&[7, 8]);
    assert_eq!(buf, expected);
}

#[test]
fn insert_replaces_and_names_are_sorted() {
    let mut b = Bundle::new();
    b.insert("sfx/jump.wav", vec![1]);
    b.insert("main.lua", vec![2]);
    b.insert("main.lua", vec![3]);
    assert_eq!(b.file_count(), 2);
    assert_eq!(b.get("main.lua"), Some([3u8].as_slice()));
    assert_eq!(b.names(), vec!["main.lua".to_string(), "sfx/jump.wav".to_string()]);
    assert_eq!(b.total_bytes(), 2);
    assert!(b.get("missing").is_none());
}

#[test]
fn insertion_order_does_not_change_the_bytes() {
    let mut a = Bundle::new();
    a.insert("x.lua", vec![1]);
    a.insert("main.lua", vec![2]);
    let mut b = Bundle::new();
    b.insert("main.lua", vec![2]);
    b.insert("x.lua", vec![1]);
    assert_eq!(a.serialize(), b.serialize());
}

#[test]
fn fused_exe_roundtrip_and_plain_exe_detection() {
    let mut b = Bundle::new();
    b.insert("main.lua", b"-- game".to_vec());
    let mut exe = b"\x7fELF fake runtime".to_vec();
    assert!(Bundle::from_fused_exe(&exe).is_none());
    exe.extend_from_slice(&b.fuse_suffix());
    let back = Bundle::from_fused_exe(&exe).unwrap();
    assert_eq!(back.get("main.lua"), Some(b"-- game".as_slice()));
    assert_eq!(back.file_count(), 1);
}
