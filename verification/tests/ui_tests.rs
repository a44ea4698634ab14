use loserar::browser::FileEntry;
use loserar::paths::{extension, file_stem, parent_path, PathStyle};
use loserar::progress::ProgressState;
use loserar::ui::{completion_heading, default_archive_name, LoserArApp};

fn entry(name: &str, path: &str, is_dir: bool) -> FileEntry {
    FileEntry { name: name.to_string(), path: path.to_string(), is_dir, size: 0, modified: None }
}

fn app_with_entries() -> LoserArApp {
    let mut app = LoserArApp::new("/home".to_string(), PathStyle::Unix);
    app.refresh_dir(Some(vec![
        entry("docs", "/home/docs", true),
        entry("photos.zip", "/home/photos.zip", false),
        entry("notes.txt", "/home/notes.txt", false),
    ]));
    app
}

#[test]
fn new_window_is_empty() {
    let app = LoserArApp::new("/tmp".to_string(), PathStyle::Unix);
    assert_eq!(app.current_path, "/tmp");
    assert!(app.entries.is_empty());
    assert!(app.selected_paths.is_empty());
    assert!(!app.show_compress_dialog);
    assert!(!app.show_extract_dialog);
}

#[test]
fn refresh_replaces_listing_and_clears_selection() {
    let mut app = app_with_entries();
    app.click_entry(&"/home/docs".to_string(), false);
    app.refresh_dir(None);
    assert_eq!(app.entries.len(), 3);
    assert!(app.selected_paths.is_empty());
    app.click_entry(&"/home/docs".to_string(), false);
    app.navigate_to("/home/docs".to_string(), Some(vec![]));
    assert_eq!(app.current_path, "/home/docs");
    assert!(app.entries.is_empty());
    assert!(app.selected_paths.is_empty());
}

#[test]
fn clicks_select_and_ctrl_clicks_toggle() {
    let mut app = app_with_entries();
    let a = "/home/docs".to_string();
    let b = "/home/notes.txt".to_string();
    app.click_entry(&a, false);
    assert_eq!(app.selected_paths, vec![a.clone()]);
    app.click_entry(&b, true);
    assert_eq!(app.selected_paths, vec![a.clone(), b.clone()]);
    assert!(app.is_selected(&b));
    app.click_entry(&a, true);
    assert_eq!(app.selected_paths, vec![b.clone()]);
    assert!(!app.is_selected(&a));
    app.click_entry(&a, true);
    app.click_entry(&a, true);
    assert_eq!(app.selected_paths, vec![b.clone()]);
    app.click_entry(&a, false);
    assert_eq!(app.selected_paths, vec![a]);
}

#[test]
fn double_clicks_open_directories_and_archives() {
    let mut app = app_with_entries();
    assert_eq!(app.double_click_entry(0), Some("/home/docs".to_string()));
    assert!(!app.show_extract_dialog);
    assert_eq!(app.double_click_entry(2), None);
    assert!(!app.show_extract_dialog);
    assert!(app.selected_paths.is_empty());
    assert_eq!(app.double_click_entry(1), None);
    assert!(app.show_extract_dialog);
    assert_eq!(app.selected_paths, vec!["/home/photos.zip".to_string()]);
}

#[test]
fn dropped_files_open_the_compress_dialog() {
    let mut app = app_with_entries();
    app.drop_paths(vec![]);
    assert!(!app.show_compress_dialog);
    app.drop_paths(vec!["/x/a".to_string(), "/x/b".to_string()]);
    assert!(app.show_compress_dialog);
    assert_eq!(app.selected_paths.len(), 2);
}

#[test]
fn toolbar_buttons() {
    let mut app = app_with_entries();
    assert!(app.request_compress());
    assert!(!app.show_compress_dialog);
    app.accept_picked_files(vec!["/x/a".to_string()]);
    assert!(app.show_compress_dialog);
    assert!(!app.request_compress());

    let mut app = app_with_entries();
    assert!(app.request_extract());
    app.accept_picked_archive("/x/a.zip".to_string());
    assert!(app.show_extract_dialog);

    let mut app = app_with_entries();
    app.click_entry(&"/home/notes.txt".to_string(), false);
    assert!(!app.request_extract());
    assert!(!app.show_extract_dialog);
    app.click_entry(&"/home/docs".to_string(), false);
    assert!(!app.request_extract());
    assert!(!app.show_extract_dialog);
    app.click_entry(&"/home/.zip".to_string(), false);
    assert!(!app.request_extract());
    assert!(!app.show_extract_dialog);
    app.click_entry(&"/home/photos.zip".to_string(), false);
    assert!(!app.request_extract());
    assert!(app.show_extract_dialog);
}

#[test]
fn extract_destination_is_the_archive_directory() {
    let mut app = app_with_entries();
    assert_eq!(app.extract_destination(), "/home");
    app.click_entry(&"/data/in/photos.zip".to_string(), false);
    assert_eq!(app.extract_destination(), "/data/in");
    app.click_entry(&"photos.zip".to_string(), false);
    assert_eq!(app.extract_destination(), "");
    app.click_entry(&"/".to_string(), false);
    assert_eq!(app.extract_destination(), "/home");
    let mut win = LoserArApp::new("D:\\".to_string(), PathStyle::Windows);
    win.click_entry(&"C:\\in\\a.zip".to_string(), false);
    assert_eq!(win.extract_destination(), "C:\\in");
}

#[test]
fn compress_dialog_proposes_the_first_stem() {
    let mut app = app_with_entries();
    assert_eq!(app.proposed_archive_name(), "archive.zip");
    app.click_entry(&"/home/notes.txt".to_string(), false);
    assert_eq!(app.proposed_archive_name(), "notes.zip");
    app.click_entry(&"/home/a.tar.gz".to_string(), false);
    assert_eq!(app.proposed_archive_name(), "a.tar.zip");
    app.click_entry(&"/home/.bashrc".to_string(), false);
    assert_eq!(app.proposed_archive_name(), ".bashrc.zip");
    app.click_entry(&"/".to_string(), false);
    assert_eq!(app.proposed_archive_name(), ".zip");
}

#[test]
fn extensions_and_stems_follow_the_standard_library() {
    let cases = ["/a/b.txt", "b", ".bashrc", "a.tar.gz", "/x/y.", "/", "..", "a/..", "", "./", "a/b/", "/a", "x..y"];
    for p in cases {
        let sp = std::path::Path::new(p);
        assert_eq!(extension(p, PathStyle::Unix), sp.extension().map(|x| x.to_string_lossy().to_string()), "{}", p);
        assert_eq!(file_stem(p, PathStyle::Unix), sp.file_stem().map(|x| x.to_string_lossy().to_string()), "{}", p);
        assert_eq!(parent_path(p, PathStyle::Unix), sp.parent().map(|x| x.to_string_lossy().to_string()), "{}", p);
    }
    for p in ["a/./b", "a//b//", "./a", ".", "//x", "/x/./"] {
        let sp = std::path::Path::new(p);
        assert_eq!(parent_path(p, PathStyle::Unix), sp.parent().map(|x| x.to_string_lossy().to_string()), "{}", p);
    }
}

#[test]
fn proposed_archive_names() {
    assert_eq!(default_archive_name(Some("photos")), "photos.zip");
    assert_eq!(default_archive_name(Some("")), ".zip");
    assert_eq!(default_archive_name(None), "archive.zip");
}

#[test]
fn completion_headings() {
    let finished = |success, original_size, compressed_size| ProgressState::Finished {
        success,
        archive_name: "a.zip".to_string(),
        file_count: 1,
        original_size,
        compressed_size,
        duration_millis: 0,
        message: String::new(),
    };
    assert_eq!(completion_heading(&finished(true, 10, 5)).as_deref(), Some("Compression Complete!"));
    assert_eq!(completion_heading(&finished(true, 0, 0)).as_deref(), Some("Extraction Complete!"));
    assert_eq!(completion_heading(&finished(false, 10, 5)).as_deref(), Some("Compression Failed"));
    assert_eq!(completion_heading(&finished(false, 0, 0)).as_deref(), Some("Extraction Failed"));
    assert_eq!(completion_heading(&ProgressState::Error("boom".to_string())).as_deref(), Some("Error"));
    assert_eq!(completion_heading(&ProgressState::Scanning), None);
    assert_eq!(completion_heading(&ProgressState::Idle), None);
}

#[test]
fn selection_compares_paths_by_components() {
    let mut app = app_with_entries();
    app.click_entry(&"/home/docs/".to_string(), false);
    assert!(app.is_selected(&"/home/docs".to_string()));
    app.click_entry(&"/home//docs".to_string(), true);
    assert!(app.selected_paths.is_empty());
}

#[test]
fn windows_selection_reads_backslashes() {
    let mut app = LoserArApp::new("C:\\Users".to_string(), PathStyle::Windows);
    assert_eq!(app.path_style, PathStyle::Windows);
    app.click_entry(&"C:\\Users\\me\\".to_string(), false);
    assert!(app.is_selected(&"c:/Users/me".to_string()));
    app.click_entry(&"C:/Users/me".to_string(), true);
    assert!(app.selected_paths.is_empty());
    let mut unix = LoserArApp::new("/".to_string(), PathStyle::Unix);
    unix.click_entry(&"C:\\Users\\me".to_string(), false);
    assert!(!unix.is_selected(&"C:/Users/me".to_string()));
}
