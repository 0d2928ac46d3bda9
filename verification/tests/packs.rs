use dungeonrs::element::Element;
use dungeonrs::events::SaveProjectEvent;
use dungeonrs::hashing::{content_id, to_hex};
use dungeonrs::packs::{AssetPack, AssetPackState};

#[test]
fn new_pack_is_created_with_root_hash_id() {
    let pack = AssetPack::new(b"/assets/forest", b"/cache", None, false).ok().unwrap();
    assert!(matches!(pack.state, AssetPackState::Created));
    assert_eq!(pack.id, blake3::hash(b"/assets/forest").to_string());
    assert_eq!(pack.name, "forest");
}

#[test]
fn new_pack_without_file_name_is_named_by_id() {
    let pack = AssetPack::new(b"/", b"/cache", None, false).ok().unwrap();
    assert_eq!(pack.name, pack.id);
    let pack = AssetPack::new(b"/assets/..", b"/cache", None, false).ok().unwrap();
    assert_eq!(pack.name, pack.id);
}

#[test]
fn pack_id_depends_only_on_root() {
    let a = AssetPack::new(b"/assets/forest", b"/cache/a", Some("A".to_string()), false).ok().unwrap();
    let b = AssetPack::new(b"/assets/forest", b"/cache/b", None, false).ok().unwrap();
    let c = AssetPack::new(b"/assets/desert", b"/cache/a", Some("A".to_string()), false).ok().unwrap();
    assert_eq!(a.id, b.id);
    assert_ne!(a.id, c.id);
    assert_eq!(a.name, "A");
    assert_eq!(b.name, "forest");
}

#[test]
fn new_in_root_keeps_metadata_inside_root() {
    let pack = AssetPack::new_in_root(b"/assets/forest", None, false).ok().unwrap();
    let same = AssetPack::new(b"/assets/forest", b"/assets/forest/.metadata", None, false).ok().unwrap();
    assert_eq!(pack.id, same.id);
    assert_eq!(pack.name, "forest");
    assert!(matches!(pack.state, AssetPackState::Created));
}

#[test]
fn pack_id_hashes_raw_root_bytes() {
    let root: &[u8] = b"/assets/\xff\xfe";
    let pack = AssetPack::new(root, b"/cache", None, false).ok().unwrap();
    assert_eq!(pack.id, blake3::hash(root).to_string());
    assert_eq!(pack.name, "\u{FFFD}\u{FFFD}");
}

#[test]
fn default_state_is_created() {
    assert!(matches!(AssetPackState::default(), AssetPackState::Created));
}

#[test]
fn content_id_is_blake3_hex() {
    assert_eq!(content_id(b""), "af1349b9f5f9a1a6a0404dea36dcc9499bcb25c9adc112b7cc9a93cae41f3262");
    assert_eq!(content_id(b"abc"), blake3::hash(b"abc").to_hex().to_string());
    assert_eq!(content_id(b"abc").len(), 64);
}

#[test]
fn hex_is_lowercase_high_nibble_first() {
    assert_eq!(to_hex(&[0x00, 0x0f, 0xa5, 0xff]), "000fa5ff");
    assert_eq!(to_hex(&[]), "");
}

#[test]
fn new_object_holds_asset_id() {
    let element = Element::new_object("hash-of-asset".to_string());
    match element {
        Element::Object(id) => assert_eq!(id, "hash-of-asset"),
        _ => panic!("unexpected element"),
    }
}

#[test]
fn save_project_event_keeps_its_fields() {
    let event = SaveProjectEvent::new(42, b"/maps/inn.drs".to_vec());
    assert_eq!(event.project, 42);
    assert_eq!(event.output, b"/maps/inn.drs".to_vec());
}

#[test]
fn windows_root_is_named_after_its_last_component() {
    let pack = AssetPack::new(b"C:\\packs\\dungeon", b"C:\\cache", None, true).ok().unwrap();
    assert_eq!(pack.name, "dungeon");
    assert_eq!(pack.id, blake3::hash(b"C:\\packs\\dungeon").to_string());
    let same = AssetPack::new_in_root(b"C:\\packs\\dungeon", None, true).ok().unwrap();
    assert_eq!(same.name, "dungeon");
}
