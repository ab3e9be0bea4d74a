use std::io::Read;

use laj3::{ArchiveError, MAX_NAME_BYTES, SourceFile, archive};

fn source(name: &str, contents: Option<&[u8]>) -> SourceFile {
    SourceFile { name: name.to_string(), contents: contents.map(|c| c.to_vec()) }
}

fn read_back(bytes: Vec<u8>) -> Vec<(String, Vec<u8>)> {
    let mut zip = zip::ZipArchive::new(std::io::Cursor::new(bytes)).unwrap();
    let mut out = Vec::new();
    for i in 0..zip.len() {
        let mut f = zip.by_index(i).unwrap();
        let mut data = Vec::new();
        f.read_to_end(&mut data).unwrap();
        out.push((f.name().to_string(), data));
    }
    out
}

#[test]
fn empty_archive_finishes_as_valid_zip() {
    let bytes = archive(&Vec::new()).ok().unwrap();
    assert!(!bytes.is_empty());
    assert!(read_back(bytes).is_empty());
}

#[test]
fn missing_file_is_skipped() {
    let files = vec![source("missing.txt", None), source("here.txt", Some(b"present"))];
    let entries = read_back(archive(&files).ok().unwrap());
    assert_eq!(entries, vec![("here.txt".to_string(), b"present".to_vec())]);
}

#[test]
fn archived_files_read_back_byte_identical() {
    let big: Vec<u8> = (0..5000u32).map(|i| (i % 251) as u8).collect();
    let files = vec![
        source("a.txt", Some(b"alpha")),
        source("dir/b.bin", Some(&big)),
        source("empty", Some(b"")),
    ];
    let entries = read_back(archive(&files).ok().unwrap());
    assert_eq!(
        entries,
        vec![
            ("a.txt".to_string(), b"alpha".to_vec()),
            ("dir/b.bin".to_string(), big),
            ("empty".to_string(), Vec::new()),
        ]
    );
}

#[test]
fn entries_are_deflated() {
    let text = vec![b'a'; 10000];
    let bytes = archive(&vec![source("a.txt", Some(&text))]).ok().unwrap();
    assert!(bytes.len() < 1000);
    let mut zip = zip::ZipArchive::new(std::io::Cursor::new(bytes)).unwrap();
    let f = zip.by_index(0).unwrap();
    assert_eq!(f.compression(), zip::CompressionMethod::Deflated);
}

#[test]
fn repeated_entry_name_is_skipped() {
    let files = vec![source("a.txt", Some(b"1")), source("b.txt", Some(b"x")), source("a.txt", Some(b"2"))];
    let entries = read_back(archive(&files).ok().unwrap());
    assert_eq!(
        entries,
        vec![("a.txt".to_string(), b"1".to_vec()), ("b.txt".to_string(), b"x".to_vec())]
    );
}

#[test]
fn name_too_long_for_zip_is_skipped() {
    let long = "n".repeat(MAX_NAME_BYTES + 1);
    let longest = "m".repeat(MAX_NAME_BYTES);
    let files = vec![
        SourceFile { name: long, contents: Some(b"skipped".to_vec()) },
        SourceFile { name: longest.clone(), contents: Some(b"kept".to_vec()) },
    ];
    let entries = read_back(archive(&files).ok().unwrap());
    assert_eq!(entries, vec![(longest, b"kept".to_vec())]);
}

#[test]
fn archive_never_reports_an_error_on_readable_files() {
    let files = vec![source("x", Some(b"1")), source("y", None)];
    assert!(!matches!(archive(&files), Err(ArchiveError::Finish)));
}
