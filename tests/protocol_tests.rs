use std::io::Read;

use laj3::{
    ManifestError, ManifestRequest, SourceFile, TransferError, archive, frame_manifest,
    plan_transfer, split_uri,
};

#[test]
fn request_gathers_lines_until_blank_line() {
    let mut r = ManifestRequest::new();
    assert!(!r.complete());
    assert!(r.push_line("{\"a.txt\":"));
    assert!(r.push_line(" \"h1\"}"));
    assert!(!r.push_line(""));
    assert!(r.complete());
    assert!(!r.push_line("ignored"));
    assert_eq!(r.body(), "{\"a.txt\": \"h1\"}");
}

#[test]
fn request_without_blank_line_keeps_what_came() {
    let mut r = ManifestRequest::new();
    assert!(r.push_line("{}"));
    assert!(!r.complete());
    assert_eq!(r.body(), "{}");
}

#[test]
fn framed_manifest_ends_with_blank_line() {
    assert_eq!(frame_manifest("{\"a\":\"b\"}"), "{\"a\":\"b\"}\r\n\r\n");
    assert_eq!(frame_manifest(""), "\r\n\r\n");
}

#[test]
fn framed_manifest_reads_back_as_request() {
    let framed = frame_manifest("{\"a.txt\":\"h1\"}");
    let mut r = ManifestRequest::new();
    for line in framed.lines() {
        if !r.push_line(line) {
            break;
        }
    }
    assert!(r.complete());
    assert_eq!(r.body(), "{\"a.txt\":\"h1\"}");
}

#[test]
fn uri_splits_at_first_slash() {
    assert_eq!(
        split_uri("127.0.0.1:7878/pkg/v1"),
        Some(("127.0.0.1:7878".to_string(), "pkg/v1".to_string()))
    );
    assert_eq!(split_uri("host/"), Some(("host".to_string(), String::new())));
    assert_eq!(split_uri("/x"), Some((String::new(), "x".to_string())));
    assert_eq!(split_uri("no-slash"), None);
}

#[test]
fn transfer_sends_changed_and_missing_paths() {
    let paths = plan_transfer("{\"a.txt\": \"h1\"}", "{\"a.txt\": \"h2\", \"b.txt\": \"h3\"}")
        .ok()
        .unwrap();
    assert_eq!(paths, vec!["a.txt".to_string(), "b.txt".to_string()]);
    let files: Vec<SourceFile> = paths
        .iter()
        .map(|p| SourceFile {
            name: p.clone(),
            contents: Some(format!("server copy of {}", p).into_bytes()),
        })
        .collect();
    let bytes = archive(&files).ok().unwrap();
    let mut zip = zip::ZipArchive::new(std::io::Cursor::new(bytes)).unwrap();
    assert_eq!(zip.len(), 2);
    for name in ["a.txt", "b.txt"] {
        let mut f = zip.by_name(name).unwrap();
        let mut s = String::new();
        f.read_to_string(&mut s).unwrap();
        assert_eq!(s, format!("server copy of {}", name));
    }
}

#[test]
fn transfer_rejects_malformed_request() {
    assert!(matches!(
        plan_transfer("{\"a.txt\": ", "{}"),
        Err(TransferError::BadRequest(ManifestError::Malformed))
    ));
}

#[test]
fn transfer_rejects_bad_server_manifest() {
    match plan_transfer("{}", "{\"a\": 1}") {
        Err(TransferError::BadServerManifest(ManifestError::NotAFingerprint(p))) => {
            assert_eq!(p, "a")
        }
        _ => panic!("expected the server manifest to be refused"),
    }
}
