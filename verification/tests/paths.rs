use mixxxkit::paths::NormalizePath;
use mixxxkit::paths::ResolveBase;
use mixxxkit::paths::TrimSurround;
use mixxxkit::paths::compress;
use mixxxkit::paths::is_absolute_path;
use mixxxkit::paths::join_base;
use mixxxkit::paths::normalize_path_str;
use mixxxkit::import::parent_of;

#[test]
fn str_trim_surround() {
    assert_eq!("xxxxx".trim_surround('x'), "xxx");
}

#[test]
fn trim_surround_str_trim_surround() {
    assert_eq!("xxxxx".trim_surround('x'), "xxx");
}

#[test]
fn extensions_str_trim_surround() {
    assert_eq!("xxxxx".trim_surround('x'), "xxx");
}

#[test]
fn str_normalize_path() {
    let result = " \"C:\\Test\\Dir\" ".normalize_path();
    assert_eq!(result, "C:/Test/Dir");
}

#[test]
fn extensions_str_normalize_path() {
    let result = " \"C:\\Test\\Dir\" ".normalize_path();
    assert_eq!(result, "C:/Test/Dir");
}

#[test]
fn normalize_path_str_normalize_path() {
    let result = r#" "C:\Test\Dir" "#.normalize_path();
    assert_eq!(result, "C:/Test/Dir");
}

#[test]
fn trim_surround_keeps_short_strings() {
    assert_eq!("x".trim_surround('x'), "x");
    assert_eq!("xx".trim_surround('x'), "");
    assert_eq!("axa".trim_surround('x'), "axa");
}

#[test]
fn normalize_path_owned_string() {
    let result = String::from(" \"C:\\Test\\Dir\" ").normalize_path();
    assert_eq!(result, "C:/Test/Dir");
}

#[test]
fn resolve_keeps_absolute_paths() {
    // the quoted, backslashed raw form normalizes and then resolves to
    // itself: a drive-designated path is already absolute
    let normalized = normalize_path_str(" \"C:\\Test\\Dir\" ");
    assert_eq!(normalized, "C:/Test/Dir");
    let resolved = normalized.resolve_base("/music/sub");
    assert_eq!(resolved, "C:/Test/Dir");
}

#[test]
fn resolve_collapses_parent_references() {
    let resolved = "../x.mp3".resolve_base("/music/sub");
    assert_eq!(resolved, "/music/x.mp3");
}

#[test]
fn compress_collapses_lexically() {
    assert_eq!(compress("a/./b//c"), "a/b/c");
    assert_eq!(compress("/a/../b"), "/b");
    assert_eq!(compress("../x"), "x");
    assert_eq!(compress("/"), "/");
    assert_eq!(compress(""), "");
    assert_eq!(compress("C:/Test/../Dir"), "C:/Dir");
}

#[test]
fn absolute_path_recognition() {
    assert!(is_absolute_path("/a/b"));
    assert!(is_absolute_path("C:/a"));
    assert!(!is_absolute_path("a/b"));
    assert!(!is_absolute_path("../a"));
    assert!(!is_absolute_path(""));
}

#[test]
fn join_base_inserts_one_separator() {
    assert_eq!(join_base("/music", "x.mp3"), "/music/x.mp3");
    assert_eq!(join_base("/music/", "x.mp3"), "/music/x.mp3");
    assert_eq!(join_base("", "x.mp3"), "x.mp3");
}

#[test]
fn parent_of_directories() {
    assert_eq!(parent_of("/pl/mix.m3u8"), "/pl");
    assert_eq!(parent_of("/a"), "/");
    assert_eq!(parent_of("plain"), "");
}
