use laj3::{Manifest, diff};

fn manifest(pairs: &[(&str, &str)]) -> Manifest {
    let mut m = Manifest::new();
    for (p, f) in pairs {
        m.insert(p.to_string(), f.to_string());
    }
    m
}

#[test]
fn diff_of_manifest_with_itself_is_empty() {
    let m = manifest(&[("a.txt", "h1"), ("b/c.txt", "h2")]);
    assert!(diff(&m, &m).is_empty());
    let empty = Manifest::new();
    assert!(diff(&empty, &empty).is_empty());
}

#[test]
fn diff_finds_one_changed_fingerprint() {
    let m1 = manifest(&[("a.txt", "h1"), ("b.txt", "h2"), ("c.txt", "h3")]);
    let m2 = manifest(&[("a.txt", "h1"), ("b.txt", "changed"), ("c.txt", "h3")]);
    assert_eq!(diff(&m1, &m2), vec!["b.txt".to_string()]);
}

#[test]
fn diff_includes_server_only_path() {
    let m1 = manifest(&[("a.txt", "h1")]);
    let m2 = manifest(&[("a.txt", "h1"), ("new.txt", "h9")]);
    assert_eq!(diff(&m1, &m2), vec!["new.txt".to_string()]);
}

#[test]
fn diff_lists_stale_client_paths_before_missing_server_paths() {
    let client = manifest(&[("x", "1"), ("gone", "2"), ("y", "3")]);
    let server = manifest(&[("z", "9"), ("y", "4"), ("x", "1")]);
    assert_eq!(
        diff(&client, &server),
        vec!["gone".to_string(), "y".to_string(), "z".to_string()]
    );
}

#[test]
fn diff_against_empty_server_sends_every_client_path() {
    let client = manifest(&[("a", "1"), ("b", "2")]);
    assert_eq!(diff(&client, &Manifest::new()), vec!["a".to_string(), "b".to_string()]);
    assert_eq!(diff(&Manifest::new(), &client), vec!["a".to_string(), "b".to_string()]);
}
