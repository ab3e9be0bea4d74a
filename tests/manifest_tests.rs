use laj3::{
    FoundFile, Manifest, build_manifest, fingerprint, lists_children, normalize_path,
};

const HELLO_SHA256: &str = "2cf24dba5fb0a30e26e83b2ac5b9e29e1b161e5c1fa7425e73043362938b9824";
const EMPTY_SHA256: &str = "e3b0c44298fc1c149afbf4c8996fb92427ae41e4649b934ca495991b7852b855";

fn found(path: &str, depth: u64, contents: Option<&[u8]>) -> FoundFile {
    FoundFile { path: path.to_string(), depth, contents: contents.map(|c| c.to_vec()) }
}

fn tree() -> Vec<FoundFile> {
    vec![
        found("./top.txt", 1, Some(b"top")),
        found("./sub/inner.txt", 2, Some(b"inner")),
        found("./sub/deeper/leaf.txt", 3, Some(b"leaf")),
        found("./other.txt", 1, Some(b"other")),
    ]
}

#[test]
fn fingerprint_is_sha256_hex() {
    assert_eq!(fingerprint(b"hello"), HELLO_SHA256);
    assert_eq!(fingerprint(b""), EMPTY_SHA256);
    assert_eq!(fingerprint(b"hello").len(), 64);
    let fp = fingerprint(b"any bytes at all \x00\xff");
    assert_eq!(fp.len(), 64);
    assert!(fp.chars().all(|c| c.is_ascii_digit() || ('a'..='f').contains(&c)));
}

#[test]
fn fingerprint_is_deterministic() {
    let bytes = b"unchanged file contents".to_vec();
    assert_eq!(fingerprint(&bytes), fingerprint(&bytes.clone()));
    let a = build_manifest(&vec![found("./f.txt", 1, Some(b"same"))], false);
    let b = build_manifest(&vec![found("./f.txt", 1, Some(b"same"))], false);
    assert_eq!(a.entries(), b.entries());
}

#[test]
fn normalize_strips_leading_separators() {
    assert_eq!(normalize_path("./a/b.txt"), "a/b.txt");
    assert_eq!(normalize_path("/abs/x"), "abs/x");
    assert_eq!(normalize_path("//x"), "x");
    assert_eq!(normalize_path("././a"), "a");
    assert_eq!(normalize_path(".hidden"), ".hidden");
    assert_eq!(normalize_path("a/./b"), "a/./b");
    assert_eq!(normalize_path(""), "");
    assert_eq!(normalize_path("./"), "");
}

#[test]
fn walk_lists_root_always_and_subdirectories_only_when_recursive() {
    assert!(lists_children(false, 0));
    assert!(!lists_children(false, 1));
    assert!(lists_children(true, 0));
    assert!(lists_children(true, 5));
}

#[test]
fn single_file_root_gives_one_entry() {
    let m = build_manifest(&vec![found("./only.txt", 0, Some(b"hello"))], false);
    assert_eq!(m.len(), 1);
    assert_eq!(m.get("only.txt"), Some(HELLO_SHA256.to_string()));
}

#[test]
fn flat_build_holds_only_depth_one_files() {
    let m = build_manifest(&tree(), false);
    assert_eq!(m.len(), 2);
    assert_eq!(m.get("top.txt"), Some(fingerprint(b"top")));
    assert_eq!(m.get("other.txt"), Some(fingerprint(b"other")));
    assert_eq!(m.get("sub/inner.txt"), None);
    assert_eq!(m.get("sub/deeper/leaf.txt"), None);
}

#[test]
fn recursive_build_is_a_superset_of_the_flat_build() {
    let flat = build_manifest(&tree(), false);
    let deep = build_manifest(&tree(), true);
    assert_eq!(deep.len(), 4);
    for (path, fp) in flat.entries() {
        assert_eq!(deep.get(&path), Some(fp));
    }
    assert_eq!(deep.get("sub/inner.txt"), Some(fingerprint(b"inner")));
    assert_eq!(deep.get("sub/deeper/leaf.txt"), Some(fingerprint(b"leaf")));
}

#[test]
fn flat_and_recursive_keys_with_colliding_paths() {
    let files = vec![found("./a", 1, Some(b"x")), found("a", 2, Some(b"y"))];
    let flat = build_manifest(&files, false);
    let deep = build_manifest(&files, true);
    assert_eq!(flat.entries(), vec![("a".to_string(), fingerprint(b"x"))]);
    assert_eq!(deep.entries(), vec![("a".to_string(), fingerprint(b"y"))]);
}

#[test]
fn unreadable_files_are_skipped() {
    let files = vec![found("./bad.txt", 1, None), found("./good.txt", 1, Some(b""))];
    let m = build_manifest(&files, true);
    assert_eq!(m.len(), 1);
    assert_eq!(m.get("bad.txt"), None);
    assert_eq!(m.get("good.txt"), Some(EMPTY_SHA256.to_string()));
}

#[test]
fn empty_listing_builds_empty_manifest() {
    let m = build_manifest(&Vec::new(), true);
    assert_eq!(m.len(), 0);
    assert!(m.entries().is_empty());
}

#[test]
fn insert_replaces_existing_path_in_place() {
    let mut m = Manifest::new();
    m.insert("a".to_string(), "1".to_string());
    m.insert("b".to_string(), "2".to_string());
    m.insert("a".to_string(), "3".to_string());
    assert_eq!(
        m.entries(),
        vec![("a".to_string(), "3".to_string()), ("b".to_string(), "2".to_string())]
    );
}
