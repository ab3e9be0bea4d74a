use laj3::{ManifestError, manifest_from_members, manifest_to_json, parse_manifest};

#[test]
fn parses_object_of_fingerprints() {
    let m = parse_manifest("{\"a.txt\": \"h1\", \"b/c.txt\": \"h2\"}").ok().unwrap();
    assert_eq!(m.len(), 2);
    assert_eq!(m.get("a.txt"), Some("h1".to_string()));
    assert_eq!(m.get("b/c.txt"), Some("h2".to_string()));
}

#[test]
fn parses_empty_object() {
    let m = parse_manifest("{}").ok().unwrap();
    assert_eq!(m.len(), 0);
}

#[test]
fn rejects_text_that_is_not_an_object() {
    assert!(matches!(parse_manifest("not json"), Err(ManifestError::Malformed)));
    assert!(matches!(parse_manifest("[\"a\"]"), Err(ManifestError::Malformed)));
    assert!(matches!(parse_manifest(""), Err(ManifestError::Malformed)));
}

#[test]
fn rejects_value_that_is_not_a_string() {
    match parse_manifest("{\"a\": \"h\", \"b\": 3, \"c\": null}") {
        Err(ManifestError::NotAFingerprint(p)) => assert_eq!(p, "b"),
        _ => panic!("expected a member without fingerprint"),
    }
}

#[test]
fn members_name_the_first_value_without_fingerprint() {
    let members = vec![
        ("a".to_string(), Some("1".to_string())),
        ("b".to_string(), None),
        ("c".to_string(), None),
    ];
    match manifest_from_members(members) {
        Err(ManifestError::NotAFingerprint(p)) => assert_eq!(p, "b"),
        _ => panic!("expected a member without fingerprint"),
    }
    let ok = manifest_from_members(vec![
        ("a".to_string(), Some("1".to_string())),
        ("a".to_string(), Some("2".to_string())),
    ])
    .ok()
    .unwrap();
    assert_eq!(ok.entries(), vec![("a".to_string(), "2".to_string())]);
}

#[test]
fn writes_compact_json_object() {
    let m = parse_manifest("{\"a.txt\": \"h1\"}").ok().unwrap();
    assert_eq!(manifest_to_json(&m), "{\"a.txt\":\"h1\"}");
    let back = parse_manifest(&manifest_to_json(&m)).ok().unwrap();
    assert_eq!(back.entries(), m.entries());
}
