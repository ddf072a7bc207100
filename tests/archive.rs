use ai_project_template::archive::{extract_presets, plan_entry, plan_extraction, ArchiveEntry, IngestError};
use std::io::{Cursor, Write};
use zip::write::FileOptions;
use zip::ZipWriter;

fn build_zip(entries: &[(&str, Option<&[u8]>)]) -> Vec<u8> {
    let mut w = ZipWriter::new(Cursor::new(Vec::new()));
    let opts = FileOptions::default().compression_method(zip::CompressionMethod::Stored).unix_permissions(0o640);
    for (name, body) in entries {
        match body {
            Some(bytes) => {
                w.start_file(*name, opts).unwrap();
                w.write_all(bytes).unwrap();
            }
            None => {
                w.add_directory(*name, opts).unwrap();
            }
        }
    }
    w.finish().unwrap().into_inner()
}

fn entry(name: &str, enclosed: Option<&str>, data: &[u8]) -> ArchiveEntry {
    ArchiveEntry {
        name: name.to_string(),
        enclosed: enclosed.map(|s| s.to_string()),
        data: data.to_vec(),
        unix_mode: None,
    }
}

#[test]
fn root_folder_is_stripped() {
    let bytes = build_zip(&[("root-main/", None), ("root-main/a/", None), ("root-main/a/b.txt", Some(b"hello"))]);
    let steps = extract_presets("/data/presets", "root-main", bytes).unwrap();
    let paths: Vec<&str> = steps.iter().map(|s| s.path.as_str()).collect();
    assert_eq!(paths, vec!["/data/presets", "/data/presets/a/", "/data/presets/a/b.txt"]);
    assert!(steps[0].is_dir && steps[1].is_dir && !steps[2].is_dir);
    assert_eq!(steps[2].data, b"hello".to_vec());
    assert_eq!(steps[2].unix_mode.map(|m| m & 0o777), Some(0o640));
}

#[test]
fn entries_outside_the_root_folder_keep_their_path() {
    let bytes = build_zip(&[("other/x.txt", Some(b"x")), ("root-mainly/y.txt", Some(b"y"))]);
    let steps = extract_presets("t", "root-main", bytes).unwrap();
    let paths: Vec<&str> = steps.iter().map(|s| s.path.as_str()).collect();
    assert_eq!(paths, vec!["t/other/x.txt", "t/root-mainly/y.txt"]);
}

#[test]
fn unrelated_files_are_never_written() {
    let mut disk: std::collections::BTreeMap<String, Vec<u8>> = std::collections::BTreeMap::new();
    disk.insert("/data/presets/keepme.txt".to_string(), b"mine".to_vec());
    disk.insert("/data/presets/a.txt".to_string(), b"old".to_vec());
    let bytes = build_zip(&[("root-main/a.txt", Some(b"a")), ("root-main/sub/b.txt", Some(b"b"))]);
    let steps = extract_presets("/data/presets", "root-main", bytes).unwrap();
    assert_eq!(steps.len(), 2);
    for s in steps {
        if !s.is_dir {
            disk.insert(s.path, s.data);
        }
    }
    assert_eq!(disk["/data/presets/keepme.txt"], b"mine".to_vec());
    assert_eq!(disk["/data/presets/a.txt"], b"a".to_vec());
    assert_eq!(disk["/data/presets/sub/b.txt"], b"b".to_vec());
    assert_eq!(disk.len(), 3);
}

#[test]
fn traversal_entries_are_skipped() {
    let bytes = build_zip(&[
        ("root-main/../evil.txt", Some(b"1")),
        ("../up.txt", Some(b"2")),
        ("/abs.txt", Some(b"3")),
        ("root-main/ok/../fine.txt", Some(b"4")),
        ("root-main/good.txt", Some(b"5")),
    ]);
    let steps = extract_presets("/data/presets", "root-main", bytes).unwrap();
    let paths: Vec<&str> = steps.iter().map(|s| s.path.as_str()).collect();
    assert_eq!(paths, vec!["/data/presets/good.txt"]);
}

#[test]
fn corrupt_bytes_are_refused() {
    let r = extract_presets("/data/presets", "root-main", b"this is not an archive".to_vec());
    assert!(matches!(r, Err(IngestError::CorruptArchive(_))));
}

#[test]
fn plan_keeps_order_and_drops_rejected_names() {
    let entries = vec![
        entry("r/one.txt", Some("r/one.txt"), b"1"),
        entry("../two.txt", None, b"2"),
        entry("r/dir/", Some("r/dir/"), b""),
        entry("r/../three.txt", Some("r/../three.txt"), b"3"),
    ];
    let steps = plan_extraction("out/", "r", entries);
    let paths: Vec<&str> = steps.iter().map(|s| s.path.as_str()).collect();
    assert_eq!(paths, vec!["out/one.txt", "out/dir/"]);
    assert!(steps[1].is_dir);
    assert!(steps[1].data.is_empty());
}

#[test]
fn plan_entry_of_the_root_folder_is_the_target() {
    let s = plan_entry("base", "r", entry("r/", Some("r/"), b"")).unwrap();
    assert_eq!(s.path, "base");
    assert!(s.is_dir);
    assert!(plan_entry("base", "r", entry("r//x", Some("r//x"), b"")).is_none());
}

#[test]
fn entry_marked_aes_without_encryption_flag_fails_cleanly() {
    let mut w = ZipWriter::new(Cursor::new(Vec::new()));
    let opts = FileOptions::default().compression_method(zip::CompressionMethod::Stored);
    w.start_file_with_extra_data("root-main/x.txt", opts).unwrap();
    let field = [0x99, 0x99, 7, 0, 2, 0, 0x41, 0x45, 3, 0, 0];
    w.write_all(&field).unwrap();
    w.end_extra_data().unwrap();
    w.write_all(b"data").unwrap();
    let mut bytes = w.finish().unwrap().into_inner();
    let mut patched = 0;
    let mut i = 0;
    while i + field.len() <= bytes.len() {
        if bytes[i..i + field.len()] == field {
            bytes[i] = 0x01;
            patched += 1;
        }
        i += 1;
    }
    assert_eq!(patched, 2);
    let r = extract_presets("/data/presets", "root-main", bytes);
    assert!(matches!(r, Err(IngestError::ExtractionFailure(_))));
}
