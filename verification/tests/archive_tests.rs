use std::io::Write;

use dirzip::archiver::build_archive;
use dirzip::errors::ArchiveError;
use dirzip::extractor::extract_archive;
use dirzip::model::{EntryKind, TreeEntry};

fn file(path: &str, data: &[u8]) -> TreeEntry {
    TreeEntry { path: String::from(path), kind: EntryKind::File, data: data.to_vec() }
}

fn dir(path: &str) -> TreeEntry {
    TreeEntry { path: String::from(path), kind: EntryKind::Directory, data: Vec::new() }
}

#[test]
fn round_trip_three_nodes() {
    let entries = vec![
        file("a.txt", b"hello"),
        file("sub/b.txt", b"world"),
        dir("sub/empty"),
    ];
    let bytes = build_archive(&entries).unwrap();
    let out = extract_archive(&bytes).unwrap();
    assert_eq!(out.len(), 3);
    assert_eq!(out[0], file("a.txt", b"hello"));
    assert_eq!(out[1], file("sub/b.txt", b"world"));
    assert_eq!(out[2], dir("sub/empty"));
}

#[test]
fn round_trip_with_explicit_parents_and_root() {
    // A walk reports the root itself (empty relative path); it contributes
    // no record, and every other node comes back in walk order.
    let entries = vec![
        dir(""),
        file("a.txt", b"hello"),
        dir("sub"),
        file("sub/b.txt", b"world"),
        dir("sub/empty"),
    ];
    let bytes = build_archive(&entries).unwrap();
    let out = extract_archive(&bytes).unwrap();
    assert_eq!(
        out,
        vec![
            file("a.txt", b"hello"),
            dir("sub"),
            file("sub/b.txt", b"world"),
            dir("sub/empty"),
        ]
    );
}

#[test]
fn round_trip_normalizes_platform_separators() {
    let entries = vec![dir("sub"), file("sub\\b.txt", b"world")];
    let bytes = build_archive(&entries).unwrap();
    let out = extract_archive(&bytes).unwrap();
    assert_eq!(out, vec![dir("sub"), file("sub/b.txt", b"world")]);
}

#[test]
fn round_trip_zero_byte_file() {
    let entries = vec![file("zero.bin", b"")];
    let bytes = build_archive(&entries).unwrap();
    let out = extract_archive(&bytes).unwrap();
    assert_eq!(out, vec![file("zero.bin", b"")]);
}

#[test]
fn round_trip_empty_tree() {
    let entries: Vec<TreeEntry> = Vec::new();
    let bytes = build_archive(&entries).unwrap();
    let out = extract_archive(&bytes).unwrap();
    assert!(out.is_empty());
}

#[test]
fn round_trip_varied_contents() {
    let big: Vec<u8> = (0..100_000u32).map(|i| (i % 251) as u8).collect();
    let entries = vec![
        file("big.bin", &big),
        file("text.txt", b"line one\nline two\n"),
        dir("nested"),
        dir("nested/deeper"),
        file("nested/deeper/c.dat", &[0, 255, 1, 254]),
    ];
    let bytes = build_archive(&entries).unwrap();
    let out = extract_archive(&bytes).unwrap();
    assert_eq!(out.len(), 5);
    assert_eq!(out[0].data, big);
    assert_eq!(out, entries);
}

#[test]
fn duplicate_stored_names_rejected() {
    // Two entries whose paths normalize to one stored name cannot share an
    // archive: the build fails rather than silently dropping one.
    let entries = vec![file("sub\\x.txt", b"one"), file("sub/x.txt", b"two")];
    assert!(build_archive(&entries).is_err());
}

#[test]
fn extract_is_idempotent_on_same_archive() {
    let entries = vec![file("a.txt", b"hello"), dir("sub"), file("sub/b.txt", b"world")];
    let bytes = build_archive(&entries).unwrap();
    let once = extract_archive(&bytes).unwrap();
    let twice = extract_archive(&bytes).unwrap();
    assert_eq!(once, twice);
}

#[test]
fn empty_directory_preserved() {
    let entries = vec![dir("only")];
    let bytes = build_archive(&entries).unwrap();
    let out = extract_archive(&bytes).unwrap();
    assert_eq!(out, vec![dir("only")]);
}

#[test]
fn archive_index_stores_canonical_names() {
    // The stored names are inspectable by any conforming reader: one file
    // given with a platform backslash, one directory, both canonical.
    let entries = vec![dir("sub"), file("sub\\b.txt", b"world")];
    let bytes = build_archive(&entries).unwrap();
    let mut archive = zip::ZipArchive::new(std::io::Cursor::new(bytes)).unwrap();
    let mut names = Vec::new();
    for i in 0..archive.len() {
        names.push(archive.by_index(i).unwrap().name().to_string());
    }
    assert_eq!(names, vec![String::from("sub/"), String::from("sub/b.txt")]);
    assert!(names.iter().all(|n| !n.contains('\\')));
}

#[test]
fn traversal_escaping_archive_rejected() {
    let mut w = zip::ZipWriter::new(std::io::Cursor::new(Vec::new()));
    w.start_file("../evil.txt", zip::write::SimpleFileOptions::default()).unwrap();
    w.write_all(b"boom").unwrap();
    let bytes = w.finish().unwrap().into_inner();
    let r = extract_archive(&bytes);
    assert!(matches!(r, Err(ArchiveError::PathTraversalRejected(_))));
}

#[test]
fn absolute_record_path_rejected() {
    let mut w = zip::ZipWriter::new(std::io::Cursor::new(Vec::new()));
    w.start_file("/etc/shadow", zip::write::SimpleFileOptions::default()).unwrap();
    w.write_all(b"boom").unwrap();
    let bytes = w.finish().unwrap().into_inner();
    let r = extract_archive(&bytes);
    assert!(matches!(r, Err(ArchiveError::PathTraversalRejected(_))));
}

#[test]
fn inner_traversal_segment_rejected() {
    let mut w = zip::ZipWriter::new(std::io::Cursor::new(Vec::new()));
    w.start_file("sub/../../evil.txt", zip::write::SimpleFileOptions::default()).unwrap();
    w.write_all(b"boom").unwrap();
    let bytes = w.finish().unwrap().into_inner();
    let r = extract_archive(&bytes);
    assert!(matches!(r, Err(ArchiveError::PathTraversalRejected(_))));
}

#[test]
fn directory_marker_payload_dropped() {
    // A foreign archive may store bytes under a slash-terminated name; the
    // name marks a directory, so the payload is not materialized.
    let mut w = zip::ZipWriter::new(std::io::Cursor::new(Vec::new()));
    w.start_file("d/", zip::write::SimpleFileOptions::default()).unwrap();
    w.write_all(b"stray").unwrap();
    let bytes = w.finish().unwrap().into_inner();
    let out = extract_archive(&bytes).unwrap();
    assert_eq!(out, vec![dir("d")]);
}

#[test]
fn malformed_container_rejected() {
    let bytes: Vec<u8> = vec![1, 2, 3, 4, 5];
    let r = extract_archive(&bytes);
    assert!(matches!(r, Err(ArchiveError::ArchiveFormat(_))));
}

#[test]
fn error_messages_name_the_kind() {
    let e = ArchiveError::PathTraversalRejected(String::from("../evil.txt"));
    assert_eq!(e.message(), "path traversal rejected: ../evil.txt");
    assert_eq!(e.context(), "../evil.txt");
    let e = ArchiveError::NotFound(String::from("missing"));
    assert_eq!(e.message(), "not found: missing");
}
