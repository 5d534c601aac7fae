use bucket_sync::path_codec::{normalize, serialize, split_filename, str_eq, strip_path, PathKey};

fn segs(parts: &[&str]) -> Vec<String> {
    parts.iter().map(|s| s.to_string()).collect()
}

#[test]
fn split_separator_agnostic() {
    assert_eq!(split_filename("a/b/c"), segs(&["a", "b", "c"]));
    assert_eq!(split_filename("a\\b\\c"), segs(&["a", "b", "c"]));
    assert_eq!(split_filename("a/b/c"), split_filename("a\\b\\c"));
}

#[test]
fn split_mixed_separators() {
    assert_eq!(split_filename("a\\b/c"), segs(&["a", "b", "c"]));
    assert_eq!(split_filename("a/b\\c"), segs(&["a", "b", "c"]));
}

#[test]
fn split_drops_empty_segments() {
    assert_eq!(split_filename(""), segs(&[]));
    assert_eq!(split_filename("/"), segs(&[]));
    assert_eq!(split_filename("//"), segs(&[]));
    assert_eq!(split_filename("/a/b"), segs(&["a", "b"]));
    assert_eq!(split_filename("a//b"), segs(&["a", "b"]));
    assert_eq!(split_filename("a/b/"), segs(&["a", "b"]));
    assert_eq!(split_filename("\\a\\\\b\\"), segs(&["a", "b"]));
}

#[test]
fn split_single_segment() {
    assert_eq!(split_filename("file.txt"), segs(&["file.txt"]));
}

#[test]
fn normalize_key_eq_is_separator_agnostic() {
    let a = normalize("a/b/c");
    let b = normalize("a\\b\\c");
    assert!(a.key_eq(&b));
    let c = normalize("a/b/d");
    assert!(!a.key_eq(&c));
    let shorter = normalize("a/b");
    assert!(!a.key_eq(&shorter));
}

#[test]
fn normalize_is_case_sensitive() {
    let a = normalize("a/b");
    let b = normalize("A/b");
    assert!(!a.key_eq(&b));
}

#[test]
fn serialize_uses_canonical_separator() {
    assert_eq!(serialize(&PathKey { segments: segs(&["a", "b", "c"]) }), "a/b/c");
    assert_eq!(serialize(&PathKey { segments: segs(&["one"]) }), "one");
    assert_eq!(serialize(&PathKey { segments: segs(&[]) }), "");
}

#[test]
fn serialize_normalize_round_trip() {
    let key = normalize("dir\\sub\\file.txt");
    let canonical = serialize(&key);
    assert_eq!(canonical, "dir/sub/file.txt");
    assert!(normalize(&canonical).key_eq(&key));
}

#[test]
fn strip_path_under_root() {
    assert_eq!(
        strip_path("/home/u/data/a/x.txt", "/home/u/data"),
        Some("a/x.txt".to_string())
    );
}

#[test]
fn strip_path_mixed_separators() {
    assert_eq!(
        strip_path("C:\\data\\a\\x.txt", "C:/data"),
        Some("a/x.txt".to_string())
    );
}

#[test]
fn strip_path_outside_root() {
    assert_eq!(strip_path("/other/a/x.txt", "/home/u/data"), None);
    assert_eq!(strip_path("/home/u", "/home/u/data"), None);
}

#[test]
fn strip_path_of_root_itself() {
    assert_eq!(strip_path("/home/u/data", "/home/u/data/"), Some("".to_string()));
}

#[test]
fn str_eq_compares_contents() {
    assert!(str_eq("abc", "abc"));
    assert!(!str_eq("abc", "abd"));
    assert!(!str_eq("abc", "ab"));
    assert!(str_eq("", ""));
}
