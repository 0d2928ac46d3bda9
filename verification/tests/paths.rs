use dungeonrs::paths::{file_name, join};
use dungeonrs::text::u64_to_decimal;

#[test]
fn file_name_of_plain_paths() {
    assert_eq!(file_name(b"/usr/bin/", false), Some("bin".to_string()));
    assert_eq!(file_name(b"tmp/foo.txt", false), Some("foo.txt".to_string()));
    assert_eq!(file_name(b"foo.txt/.", false), Some("foo.txt".to_string()));
    assert_eq!(file_name(b"foo.txt/.//", false), Some("foo.txt".to_string()));
    assert_eq!(file_name(b"name", false), Some("name".to_string()));
    assert_eq!(file_name(b"a//b", false), Some("b".to_string()));
}

#[test]
fn file_name_is_none_without_normal_component() {
    assert_eq!(file_name(b"foo.txt/..", false), None);
    assert_eq!(file_name(b"/", false), None);
    assert_eq!(file_name(b"", false), None);
    assert_eq!(file_name(b".", false), None);
    assert_eq!(file_name(b"./", false), None);
    assert_eq!(file_name(b"..", false), None);
}

#[test]
fn file_name_keeps_dotted_names() {
    assert_eq!(file_name(b"/a/.hidden", false), Some(".hidden".to_string()));
    assert_eq!(file_name(b"/a/...", false), Some("...".to_string()));
}

#[test]
fn file_name_of_joined_path() {
    let joined = join(b"/assets", b"forest", false);
    assert_eq!(joined, b"/assets/forest".to_vec());
    assert_eq!(file_name(&joined, false), Some("forest".to_string()));
    assert_eq!(join(b"/assets/", b"forest", false), b"/assets/forest".to_vec());
    assert_eq!(join(b"", b"forest", false), b"forest".to_vec());
}

#[test]
fn file_name_is_lossy_on_invalid_utf8() {
    assert_eq!(file_name(b"/a/b\xffc", false), Some("b\u{FFFD}c".to_string()));
    assert_eq!(file_name("/données/carte".as_bytes(), false), Some("carte".to_string()));
}

#[test]
fn decimal_notation() {
    assert_eq!(u64_to_decimal(0), "0");
    assert_eq!(u64_to_decimal(7), "7");
    assert_eq!(u64_to_decimal(1024), "1024");
    assert_eq!(u64_to_decimal(u64::MAX), u64::MAX.to_string());
}

#[test]
fn windows_file_name_splits_on_both_separators() {
    assert_eq!(file_name(b"a\\b", true), Some("b".to_string()));
    assert_eq!(file_name(b"a\\b", false), Some("a\\b".to_string()));
    assert_eq!(file_name(b"C:\\packs\\dungeon", true), Some("dungeon".to_string()));
    assert_eq!(file_name(b"C:/packs/dungeon/", true), Some("dungeon".to_string()));
    assert_eq!(file_name(b"C:\\packs\\.", true), Some("packs".to_string()));
}

#[test]
fn windows_prefixes_have_no_file_name() {
    assert_eq!(file_name(b"C:", true), None);
    assert_eq!(file_name(b"C:\\", true), None);
    assert_eq!(file_name(b"C:foo", true), Some("foo".to_string()));
    assert_eq!(file_name(b"\\\\server\\share", true), None);
    assert_eq!(file_name(b"\\\\server\\share\\x", true), Some("x".to_string()));
    assert_eq!(file_name(b"\\\\.\\COM1", true), None);
    assert_eq!(file_name(b"\\\\?\\C:\\", true), None);
    assert_eq!(file_name(b"\\\\?\\UNC\\server\\share", true), None);
    assert_eq!(file_name(b"\\\\?\\UNC\\server\\share\\y", true), Some("y".to_string()));
}

#[test]
fn windows_verbatim_paths_keep_slashes_and_dots() {
    assert_eq!(file_name(b"\\\\?\\C:\\a/b", true), Some("a/b".to_string()));
    assert_eq!(file_name(b"\\\\?\\C:\\a\\.", true), None);
    assert_eq!(file_name(b"\\\\?\\pictures\\cat.png", true), Some("cat.png".to_string()));
}

#[test]
fn windows_join() {
    assert_eq!(join(b"C:", b"x", true), b"C:x".to_vec());
    assert_eq!(join(b"C:\\dir", b"x", true), b"C:\\dir\\x".to_vec());
    assert_eq!(join(b"C:/dir/", b"x", true), b"C:/dir/x".to_vec());
    assert_eq!(join(b"", b"x", true), b"x".to_vec());
    assert_eq!(join(b"\\\\?\\C:\\a\\\\b\\", b"x", true), b"\\\\?\\C:\\a\\b\\x".to_vec());
    assert_eq!(join(b"\\\\?\\C:", b"x", true), b"\\\\?\\C:\\x".to_vec());
    assert_eq!(join(b"dir", b"x", false), b"dir/x".to_vec());
}
