use loserar::browser::{browse_directory, drives_from_mask, list_drives, FileEntry};

fn entry(name: &str, is_dir: bool) -> FileEntry {
    FileEntry {
        name: name.to_string(),
        path: format!("/d/{}", name),
        is_dir,
        size: if is_dir { 0 } else { 7 },
        modified: Some((1_700_000_000, 250_000_000)),
    }
}

fn names(listing: &[FileEntry]) -> Vec<&str> {
    listing.iter().map(|e| e.name.as_str()).collect()
}

#[test]
fn listing_puts_parent_then_directories_then_files() {
    let raw = vec![
        entry("zeta.txt", false),
        entry("Beta", true),
        entry("alpha.txt", false),
        entry("alpha", true),
    ];
    let listing = browse_directory(Some("/".to_string()), raw);
    assert_eq!(names(&listing), vec!["..", "alpha", "Beta", "alpha.txt", "zeta.txt"]);
    assert_eq!(listing[0].path, "/");
    assert!(listing[0].is_dir);
    assert_eq!(listing[0].size, 0);
    assert_eq!(listing[0].modified, None);
    assert_eq!(listing[1].path, "/d/alpha");
}

#[test]
fn listing_of_a_root_has_no_parent_link() {
    let listing = browse_directory(None, vec![entry("b", false), entry("a", false)]);
    assert_eq!(names(&listing), vec!["a", "b"]);
}

#[test]
fn names_compare_in_lower_case() {
    // By code point "B" comes before "a"; in lower case "a" comes first.
    let listing = browse_directory(None, vec![entry("B", false), entry("a", false)]);
    assert_eq!(names(&listing), vec!["a", "B"]);
    let listing = browse_directory(None, vec![entry("Ärger", false), entry("äb", false)]);
    assert_eq!(names(&listing), vec!["äb", "Ärger"]);
}

#[test]
fn equal_keys_keep_their_order() {
    let listing = browse_directory(None, vec![entry("Readme", false), entry("README", false), entry("readme", false)]);
    assert_eq!(names(&listing), vec!["Readme", "README", "readme"]);
}

#[test]
fn empty_directory_lists_only_the_parent() {
    let listing = browse_directory(Some("/home".to_string()), vec![]);
    assert_eq!(names(&listing), vec![".."]);
    assert!(browse_directory(None, vec![]).is_empty());
}

#[test]
fn single_root_on_unix_systems() {
    assert_eq!(list_drives(), vec!["/".to_string()]);
}

#[test]
fn drive_letters_follow_the_mask_bits() {
    assert_eq!(drives_from_mask(0), Vec::<String>::new());
    assert_eq!(drives_from_mask(0b101), vec!["A:\\".to_string(), "C:\\".to_string()]);
    assert_eq!(drives_from_mask(0b1000), vec!["D:\\".to_string()]);
    let all = drives_from_mask(u32::MAX);
    assert_eq!(all.len(), 32);
    assert_eq!(all[25], "Z:\\");
    assert_eq!(all[31], "`:\\");
}

#[test]
fn entries_compare_paths_by_components() {
    let a = entry("docs", true);
    let mut b = a.clone();
    b.path = "/d//docs/".to_string();
    assert!(a == b);
    b.path = "/d/./docs".to_string();
    assert!(a == b);
    b.path = "/d/docs/x".to_string();
    assert!(a != b);
    let mut c = a.clone();
    c.size = 1;
    assert!(a != c);
    let mut d = a.clone();
    d.modified = Some((1_700_000_000, 250_000_001));
    assert!(a != d);
}
