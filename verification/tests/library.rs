use dungeonrs::library::{AssetLibrary, AssetLibraryError, EDITOR_VERSION};
use dungeonrs::packs::{AssetPack, AssetPackError, AssetPackState};

const PACK_ROOT: &[u8] = b"/tmp/dungeonrs-tests/pack";
const CACHE_DIR: &[u8] = b"/tmp/dungeonrs-tests/cache";

fn cache() -> Result<Vec<u8>, String> {
    Ok(CACHE_DIR.to_vec())
}

fn text(bytes: &[u8]) -> String {
    String::from_utf8(bytes.to_vec()).unwrap()
}

fn open_pack(root: &[u8], index: &[u8]) -> Result<AssetPack, AssetPackError> {
    AssetPack::new(root, index, None, false)
}

/// Writes a library to TOML text the way the application saves it.
fn to_toml(library: &AssetLibrary) -> String {
    let (version, records) = library.to_parts();
    let mut packs = toml::Table::new();
    for (id, root, index) in records {
        let mut entry = toml::Table::new();
        entry.insert("root".to_string(), toml::Value::String(text(&root)));
        entry.insert("index".to_string(), toml::Value::String(text(&index)));
        packs.insert(id, toml::Value::Table(entry));
    }
    let mut table = toml::Table::new();
    table.insert("version".to_string(), toml::Value::String(version));
    table.insert("registered_packs".to_string(), toml::Value::Table(packs));
    toml::to_string(&table).unwrap()
}

/// Reads a library back from TOML text the way the application loads it.
fn from_toml(text: &str) -> AssetLibrary {
    let table: toml::Table = text.parse().unwrap();
    let version = table["version"].as_str().unwrap().to_string();
    let mut records = Vec::new();
    for (id, entry) in table["registered_packs"].as_table().unwrap() {
        let root = entry["root"].as_str().unwrap().as_bytes().to_vec();
        let index = entry["index"].as_str().unwrap().as_bytes().to_vec();
        records.push((id.clone(), root, index));
    }
    AssetLibrary::from_parts(version, records)
}

#[test]
fn add_pack_creates_asset_pack() {
    let mut library = AssetLibrary::default();
    let pack_id = library.add_pack(PACK_ROOT, cache(), None, false).ok().unwrap();

    assert_eq!(library.iter().len(), 1);
    assert!(library.is_pack_registered(&pack_id));
}

#[test]
fn save_and_load_library() {
    let mut library = AssetLibrary::default();
    let pack_id = library.add_pack(PACK_ROOT, cache(), None, false).ok().unwrap();

    let saved = to_toml(&library);
    let library = AssetLibrary::load_or_default(Ok(from_toml(&saved))).ok().unwrap();

    assert_eq!(library.iter().len(), 1);
    assert!(library.is_pack_registered(&pack_id));
}

#[test]
fn load_asset_pack_requires_registration() {
    let mut library = AssetLibrary::default();
    let pack = AssetPack::new(PACK_ROOT, PACK_ROOT, None, false).ok().unwrap();

    let result = library.load_pack(&pack.id, open_pack);
    assert!(result.is_err(), "Asset pack should not be registered");
    assert!(!library.is_pack_loaded(&pack.id));
    assert!(library.iter().is_empty());
}

#[test]
fn iterate_registered_packs() {
    let mut library = AssetLibrary::default();
    let pack_id = library.add_pack(PACK_ROOT, cache(), None, false).ok().unwrap();
    // Keep the registrations and drop the loaded packs.
    let (version, records) = library.to_parts();
    let library = AssetLibrary::from_parts(version, records);
    assert!(!library.is_pack_loaded(&pack_id));

    for (id, entry) in library.iter() {
        assert_eq!(id, pack_id);
        assert_eq!(entry, PACK_ROOT.to_vec());
    }
}

#[test]
fn default_library_is_empty() {
    let library = AssetLibrary::default();
    let (version, records) = library.to_parts();
    assert_eq!(version, EDITOR_VERSION);
    assert!(records.is_empty());
    assert!(library.iter().is_empty());
}

#[test]
fn added_pack_is_loaded_and_named_after_its_root() {
    let mut library = AssetLibrary::default();
    let pack_id = library.add_pack(PACK_ROOT, cache(), None, false).ok().unwrap();
    assert_eq!(pack_id, blake3::hash(PACK_ROOT).to_string());
    assert!(library.is_pack_loaded(&pack_id));
    let pack = library.get_pack_mut(&pack_id).unwrap();
    assert_eq!(pack.id, pack_id);
    assert_eq!(pack.name, "pack");
    assert!(matches!(pack.state, AssetPackState::Created));
    let (_, records) = library.to_parts();
    assert_eq!(records, vec![(pack_id.clone(), PACK_ROOT.to_vec(), CACHE_DIR.to_vec())]);
}

#[test]
fn added_pack_keeps_given_name() {
    let mut library = AssetLibrary::default();
    let pack_id = library.add_pack(PACK_ROOT, cache(), Some("Dungeon tiles".to_string()), false).ok().unwrap();
    assert_eq!(library.get_pack_mut(&pack_id).unwrap().name, "Dungeon tiles");
}

#[test]
fn adding_a_pack_twice_registers_it_once() {
    let mut library = AssetLibrary::default();
    let first = library.add_pack(PACK_ROOT, cache(), None, false).ok().unwrap();
    let second = library.add_pack(PACK_ROOT, Ok(b"/elsewhere".to_vec()), None, false).ok().unwrap();
    assert_eq!(first, second);
    let (_, records) = library.to_parts();
    assert_eq!(records, vec![(first, PACK_ROOT.to_vec(), b"/elsewhere".to_vec())]);
}

#[test]
fn add_pack_without_cache_dir_fails() {
    let mut library = AssetLibrary::default();
    let result = library.add_pack(PACK_ROOT, Err("no home".to_string()), None, false);
    assert!(matches!(result, Err(AssetLibraryError::LocateConfigFolder(ref m)) if m == "no home"));
    assert!(library.iter().is_empty());
}

#[test]
fn load_pack_of_registered_pack_loads_it() {
    let mut library = AssetLibrary::from_parts(
        "1.2.3".to_string(),
        vec![("abc".to_string(), b"/maps/tiles".to_vec(), b"/cache/tiles".to_vec())],
    );
    assert!(library.is_pack_registered(&"abc".to_string()));
    assert!(!library.is_pack_loaded(&"abc".to_string()));
    let mut seen = None;
    let pack = library
        .load_pack(&"abc".to_string(), |root, index| {
            seen = Some((root.to_vec(), index.to_vec()));
            AssetPack::new(root, index, None, false)
        })
        .ok()
        .unwrap();
    assert_eq!(pack.name, "tiles");
    pack.name = "Renamed".to_string();
    assert_eq!(seen, Some((b"/maps/tiles".to_vec(), b"/cache/tiles".to_vec())));
    assert!(library.is_pack_loaded(&"abc".to_string()));
    assert_eq!(library.get_pack_mut(&"abc".to_string()).unwrap().name, "Renamed");
}

#[test]
fn load_pack_reports_unknown_id() {
    let mut library = AssetLibrary::default();
    match library.load_pack(&"missing".to_string(), open_pack) {
        Err(AssetLibraryError::NotFound(id)) => assert_eq!(id, "missing"),
        _ => panic!("expected NotFound"),
    }
}

#[test]
fn get_pack_mut_of_unloaded_pack_is_none() {
    let mut library = AssetLibrary::from_parts(
        "0.1.0".to_string(),
        vec![("abc".to_string(), b"/maps".to_vec(), b"/cache".to_vec())],
    );
    assert!(library.get_pack_mut(&"abc".to_string()).is_none());
}

#[test]
fn load_or_default_replaces_read_errors_only() {
    let library = AssetLibrary::load_or_default(Err(AssetLibraryError::ReadFile("missing".to_string()))).ok().unwrap();
    assert!(library.iter().is_empty());
    assert_eq!(library.to_parts().0, EDITOR_VERSION);

    let error = AssetLibrary::load_or_default(Err(AssetLibraryError::Serialisation("bad".to_string())));
    assert!(matches!(error, Err(AssetLibraryError::Serialisation(ref m)) if m == "bad"));
    let error = AssetLibrary::load_or_default(Err(AssetLibraryError::LocateConfigFolder("none".to_string())));
    assert!(matches!(error, Err(AssetLibraryError::LocateConfigFolder(_))));
}

#[test]
fn from_parts_later_record_wins() {
    let library = AssetLibrary::from_parts(
        "0.1.0".to_string(),
        vec![
            ("a".to_string(), b"/one".to_vec(), b"/i1".to_vec()),
            ("b".to_string(), b"/two".to_vec(), b"/i2".to_vec()),
            ("a".to_string(), b"/three".to_vec(), b"/i3".to_vec()),
        ],
    );
    assert_eq!(
        library.iter(),
        vec![("a".to_string(), b"/three".to_vec()), ("b".to_string(), b"/two".to_vec())]
    );
}

#[test]
fn library_file_is_inside_the_directory() {
    assert_eq!(AssetLibrary::library_file(b"/home/me/.config/dungeonrs", false), b"/home/me/.config/dungeonrs/library.toml".to_vec());
    assert_eq!(AssetLibrary::library_file(b"/config/", false), b"/config/library.toml".to_vec());
    assert_eq!(AssetLibrary::library_file(b"", false), b"library.toml".to_vec());
    assert_eq!(AssetLibrary::library_file(b"C:\\config", true), b"C:\\config\\library.toml".to_vec());
}
