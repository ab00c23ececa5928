use std::io::Read;

use naudit::archive::archive_and_compress;
use naudit::manifest::drop_name;
use naudit::orchestrate::{audit_dir_name, build_report};

fn untar(bytes: &[u8]) -> Vec<(String, Vec<u8>)> {
    let mut archive = tar::Archive::new(bytes);
    let mut out = Vec::new();
    for entry in archive.entries().unwrap() {
        let mut entry = entry.unwrap();
        let name = entry.path().unwrap().to_str().unwrap().to_string();
        let mut data = Vec::new();
        entry.read_to_end(&mut data).unwrap();
        out.push((name, data));
    }
    out
}

fn gunzip(bytes: &[u8]) -> Vec<u8> {
    let mut decoder = libflate::gzip::Decoder::new(bytes).unwrap();
    let mut out = Vec::new();
    decoder.read_to_end(&mut out).unwrap();
    out
}

#[test]
fn archive_round_trip_restores_files_and_paths() {
    let entries = vec![
        ("a.txt".to_string(), b"alpha".to_vec()),
        ("sub/b.txt".to_string(), b"beta".to_vec()),
    ];
    let (tar_bytes, gz_bytes) = archive_and_compress(&entries, "D-AUDIT").unwrap();

    let decompressed = gunzip(&gz_bytes);
    assert_eq!(decompressed, tar_bytes);

    let restored = untar(&decompressed);
    assert_eq!(restored.len(), 2);
    assert_eq!(restored[0].0, "D-AUDIT/a.txt");
    assert_eq!(restored[0].1, b"alpha".to_vec());
    assert_eq!(restored[1].0, "D-AUDIT/sub/b.txt");
    assert_eq!(restored[1].1, b"beta".to_vec());
}

#[test]
fn archive_rejects_names_the_writer_would_rewrite() {
    let entries = vec![("..".to_string(), b"x".to_vec())];
    assert!(matches!(
        archive_and_compress(&entries, "D-AUDIT"),
        Err(naudit::MainError::IOError)
    ));
    let doubled = vec![("a//b".to_string(), b"x".to_vec())];
    assert!(matches!(
        archive_and_compress(&doubled, "D-AUDIT"),
        Err(naudit::MainError::IOError)
    ));
}

#[test]
fn audit_bundle_holds_report_and_lock_copies() {
    let name = audit_dir_name(&drop_name("{\"name\":\"x\"}").unwrap());
    assert_eq!(name, "DROP-UNKNOWN-AUDIT");

    let sections = vec![
        ("_root_".to_string(), "ok".to_string()),
        ("pkgA".to_string(), "ok".to_string()),
    ];
    let report = build_report(&sections);

    let files = vec![
        ("_audit.txt".to_string(), report.clone().into_bytes()),
        ("_root_-package-lock.json".to_string(), b"{}".to_vec()),
        ("pkgA-package-lock.json".to_string(), b"{}".to_vec()),
    ];
    let (_tar_bytes, gz_bytes) = archive_and_compress(&files, &name).unwrap();

    let restored = untar(&gunzip(&gz_bytes));
    assert_eq!(restored.len(), 3);
    assert_eq!(restored[0].0, "DROP-UNKNOWN-AUDIT/_audit.txt");
    let text = String::from_utf8(restored[0].1.clone()).unwrap();
    assert!(text.contains("==== AUDIT FOR  _root_ ===="));
    assert!(text.contains("==== AUDIT FOR  pkgA ===="));
    assert!(text.contains("npm audit --audit-level=moderate"));
    assert_eq!(restored[1].0, "DROP-UNKNOWN-AUDIT/_root_-package-lock.json");
    assert_eq!(restored[2].0, "DROP-UNKNOWN-AUDIT/pkgA-package-lock.json");
}
