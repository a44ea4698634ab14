use loserar::compression::{compress_step, entry_options, CompressStep, CompressionPlan, PathKind, DEFAULT_COMPRESSION_LEVEL};
use loserar::paths::PathStyle;
use loserar::extraction::{extract_step, start_extraction, total_known_size, ExtractStep};
use loserar::progress::{JobKind, ProgressState};
use std::io::{Cursor, Read, Write};

#[test]
fn empty_plan_has_nothing_to_compress() {
    let plan = CompressionPlan::new();
    match plan.start() {
        Err(ProgressState::Error(m)) => assert_eq!(m, "No files found to compress."),
        _ => panic!("an empty plan must not start"),
    }
}

#[test]
fn plan_counts_items_and_file_bytes() {
    let mut plan = CompressionPlan::new();
    plan.add_directory("/home/u/docs".to_string(), "docs");
    plan.add_file("/home/u/docs/a.txt".to_string(), "docs\\a.txt", 100);
    plan.add_file("/home/u/b.txt".to_string(), "b.txt", 23);
    assert_eq!(plan.items.len(), 3);
    assert_eq!(plan.items[1].archive_name, "docs/a.txt");
    assert_eq!(plan.items[1].source, "/home/u/docs/a.txt");
    assert_eq!(plan.total_bytes, 123);
    let t = plan.start().ok().expect("a plan with items starts");
    assert_eq!(t.kind, JobKind::Compression);
    assert_eq!(t.total_files, 3);
    assert_eq!(t.total_bytes, 123);
    assert_eq!(t.files_processed, 0);
}

#[test]
fn steps_for_planned_items() {
    assert_eq!(compress_step(PathKind::File, "a.txt"), CompressStep::WriteFile);
    assert_eq!(compress_step(PathKind::Directory, "docs"), CompressStep::AddDirectory);
    assert_eq!(compress_step(PathKind::Directory, ""), CompressStep::Skip);
    assert_eq!(compress_step(PathKind::Other, "pipe"), CompressStep::Skip);
}

#[test]
fn entry_options_write_deflated_entries_with_permissions() {
    let mut buf = Cursor::new(Vec::new());
    {
        let mut zip = zip::ZipWriter::new(&mut buf);
        zip.start_file("a.txt", entry_options(DEFAULT_COMPRESSION_LEVEL)).unwrap();
        zip.write_all(&[b'x'; 1000]).unwrap();
        zip.finish().unwrap();
    }
    let mut archive = zip::ZipArchive::new(Cursor::new(buf.into_inner())).unwrap();
    let mut f = archive.by_index(0).unwrap();
    assert_eq!(f.compression(), zip::CompressionMethod::Deflated);
    assert_eq!(f.unix_mode(), Some(0o100755));
    assert!(f.compressed_size() < 1000);
    let mut s = Vec::new();
    f.read_to_end(&mut s).unwrap();
    assert_eq!(s.len(), 1000);
}

#[test]
fn extraction_totals_and_start() {
    assert_eq!(total_known_size(&vec![Some(10), None, Some(5)]), Some(15));
    assert_eq!(total_known_size(&vec![]), Some(0));
    assert_eq!(total_known_size(&vec![Some(u64::MAX), Some(1)]), None);
    assert_eq!(total_known_size(&vec![Some(u64::MAX), None]), Some(u64::MAX));
    match start_extraction(0, 0) {
        Err(ProgressState::Error(m)) => assert_eq!(m, "Archive is empty."),
        _ => panic!("an empty archive must not start"),
    }
    let t = start_extraction(4, 15).ok().expect("a non-empty archive starts");
    assert_eq!(t.kind, JobKind::Extraction);
    assert_eq!(t.total_files, 4);
    assert_eq!(t.total_bytes, 15);
}

#[test]
fn steps_for_archive_entries() {
    assert_eq!(extract_step("dir/", true), ExtractStep::CreateDirectory);
    assert_eq!(extract_step("dir/file.txt", true), ExtractStep::WriteFile);
    assert_eq!(extract_step("../evil.txt", false), ExtractStep::Skip);
    assert_eq!(extract_step("dir/", false), ExtractStep::Skip);
}

#[test]
fn planned_entries_come_back_as_written() {
    let mut plan = CompressionPlan::new();
    plan.add_directory("/src/docs".to_string(), "docs");
    plan.add_file("/src/docs/a.txt".to_string(), "docs\\a.txt", 5);
    let mut tracker = plan.start().ok().expect("two items");
    let kinds = [PathKind::Directory, PathKind::File];

    let mut buf = Cursor::new(Vec::new());
    {
        let mut zip = zip::ZipWriter::new(&mut buf);
        let options = entry_options(DEFAULT_COMPRESSION_LEVEL);
        for (item, kind) in plan.items.iter().zip(kinds.iter()) {
            tracker.begin_entry(item.archive_name.clone());
            match compress_step(*kind, &item.archive_name) {
                CompressStep::WriteFile => {
                    zip.start_file(item.archive_name.as_str(), options).unwrap();
                    zip.write_all(b"hello").unwrap();
                    tracker.record_chunk(5);
                }
                CompressStep::AddDirectory => zip.add_directory(item.archive_name.as_str(), options).unwrap(),
                CompressStep::Skip => {}
            }
            tracker.complete_entry();
        }
        zip.finish().unwrap();
    }
    assert_eq!(tracker.files_processed, 2);
    assert_eq!(tracker.bytes_processed, 5);

    let mut archive = zip::ZipArchive::new(Cursor::new(buf.into_inner())).unwrap();
    assert_eq!(archive.len(), 2);
    let mut steps = Vec::new();
    let mut sizes = Vec::new();
    for i in 0..archive.len() {
        let f = archive.by_index(i).unwrap();
        steps.push((f.name().to_string(), extract_step(f.name(), f.enclosed_name().is_some())));
        sizes.push(Some(f.size()));
    }
    assert_eq!(
        steps,
        vec![
            ("docs/".to_string(), ExtractStep::CreateDirectory),
            ("docs/a.txt".to_string(), ExtractStep::WriteFile),
        ]
    );
    assert_eq!(total_known_size(&sizes), Some(5));
}

#[test]
fn found_entries_are_named_from_the_chosen_directory_parent() {
    let u = PathStyle::Unix;
    let mut plan = CompressionPlan::new();
    assert!(plan.add_found_directory("/home/u/docs", "/home/u/docs".to_string(), u));
    assert!(plan.add_found_file("/home/u/docs", "/home/u/docs/a\\b.txt".to_string(), 7, u));
    assert!(plan.add_chosen_file("/home/u/notes.txt".to_string(), 5, u));
    assert!(!plan.add_found_file("/home/u/docs", "/tmp/x".to_string(), 9, u));
    assert!(!plan.add_found_directory("/home/u/docs", "/tmp".to_string(), u));
    assert!(!plan.add_chosen_file("/".to_string(), 1, u));
    let names: Vec<&str> = plan.items.iter().map(|i| i.archive_name.as_str()).collect();
    assert_eq!(names, vec!["docs", "docs/a/b.txt", "notes.txt"]);
    assert_eq!(plan.items[1].source, "/home/u/docs/a\\b.txt");
    assert_eq!(plan.total_bytes, 12);

    let mut root = CompressionPlan::new();
    assert!(root.add_found_directory("/", "/".to_string(), u));
    assert_eq!(root.items[0].archive_name, "");
    assert_eq!(compress_step(PathKind::Directory, &root.items[0].archive_name), CompressStep::Skip);

    let mut win = CompressionPlan::new();
    assert!(win.add_found_file("C:\\Users\\me\\docs", "C:\\Users\\me\\docs\\sub\\a.txt".to_string(), 3, PathStyle::Windows));
    assert_eq!(win.items[0].archive_name, "docs/sub/a.txt");
}
