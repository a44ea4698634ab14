use loserar::paths::{file_name, name_under, path_components, paths_equal, PathStyle};

fn comps(p: &str) -> Vec<String> {
    comps_in(p, PathStyle::Unix)
}

fn comps_in(p: &str, style: PathStyle) -> Vec<String> {
    path_components(p, style).into_iter().map(|c| c.into_iter().collect()).collect()
}

#[test]
fn components_of_paths() {
    assert_eq!(comps("/a/b"), vec!["/", "a", "b"]);
    assert_eq!(comps("/a//b/"), vec!["/", "a", "b"]);
    assert_eq!(comps("a/./b"), vec!["a", "b"]);
    assert_eq!(comps("./a"), vec![".", "a"]);
    assert_eq!(comps("."), vec!["."]);
    assert_eq!(comps("/./a"), vec!["/", "a"]);
    assert_eq!(comps("../a"), vec!["..", "a"]);
    assert_eq!(comps(""), Vec::<String>::new());
    assert_eq!(comps("/"), vec!["/"]);
}

#[test]
fn paths_compare_as_the_standard_library_does() {
    let cases = [
        ("/a/b", "/a/b/"),
        ("/a/b", "/a//b"),
        ("a/./b", "a/b"),
        ("./a", "a"),
        ("/a/../b", "/b"),
        ("", "."),
        ("/", "//"),
        ("a", "/a"),
    ];
    for (x, y) in cases {
        assert_eq!(
            paths_equal(x, y, PathStyle::Unix),
            std::path::Path::new(x) == std::path::Path::new(y),
            "{} vs {}",
            x,
            y
        );
    }
}

#[test]
fn unix_style_keeps_backslashes_and_colons() {
    assert_eq!(comps("C:\\a\\b"), vec!["C:\\a\\b"]);
    assert!(!paths_equal("C:\\a", "C:/a", PathStyle::Unix));
}

#[test]
fn windows_components() {
    let w = PathStyle::Windows;
    assert_eq!(comps_in("C:\\Users\\me\\", w), vec!["C:", "/", "Users", "me"]);
    assert_eq!(comps_in("c:/Users//me", w), vec!["C:", "/", "Users", "me"]);
    assert_eq!(comps_in("C:a\\b", w), vec!["C:", "a", "b"]);
    assert_eq!(comps_in("C:", w), vec!["C:"]);
    assert_eq!(comps_in(".\\a", w), vec![".", "a"]);
    assert_eq!(comps_in("\\a\\.\\b", w), vec!["/", "a", "b"]);
    assert_eq!(comps_in("1:\\a", w), vec!["1:", "a"]);
}

#[test]
fn windows_paths_compare_by_components() {
    let w = PathStyle::Windows;
    assert!(paths_equal("C:\\a\\b\\", "C:/a/b", w));
    assert!(paths_equal("c:\\a", "C:\\a", w));
    assert!(paths_equal("C:\\", "C:/", w));
    assert!(!paths_equal("C:a", "C:\\a", w));
    assert!(!paths_equal("C:\\a", "D:\\a", w));
    assert!(!paths_equal("C:\\A", "C:\\a", w));
}

fn std_name_under(source: &str, entry: &str) -> Option<String> {
    let s = std::path::Path::new(source);
    let base = s.parent().unwrap_or(s);
    std::path::Path::new(entry)
        .strip_prefix(base)
        .ok()
        .map(|p| p.to_string_lossy().to_string())
}

#[test]
fn names_under_a_chosen_directory() {
    let u = PathStyle::Unix;
    assert_eq!(name_under("/home/u/docs", "/home/u/docs/a.txt", u), Some("docs/a.txt".to_string()));
    assert_eq!(name_under("/home/u/docs", "/home/u/docs", u), Some("docs".to_string()));
    assert_eq!(name_under("/home/u/docs/", "/home/u/docs/sub/b.txt", u), Some("docs/sub/b.txt".to_string()));
    assert_eq!(name_under("docs", "docs/a.txt", u), Some("docs/a.txt".to_string()));
    assert_eq!(name_under("/", "/", u), Some("".to_string()));
    assert_eq!(name_under("/", "/etc/hosts", u), Some("etc/hosts".to_string()));
    assert_eq!(name_under("/home/u/docs", "/tmp/x", u), None);
    let cases = [
        ("/home/u/docs", "/home/u/docs/a.txt"),
        ("/home/u/docs/.", "/home/u/docs/./a.txt"),
        ("/home/u//docs", "/home/u//docs//a.txt/"),
        ("./docs", "./docs/a"),
        (".", "./a"),
        ("..", "../x"),
        ("docs", "docs/a//b"),
        ("a/b", "a/c"),
        ("", "x"),
        ("/", "//"),
        ("/a", "/b"),
    ];
    for (s, e) in cases {
        assert_eq!(name_under(s, e, u), std_name_under(s, e), "{} under {}", e, s);
    }
}

#[test]
fn names_under_a_chosen_directory_in_windows_style() {
    let w = PathStyle::Windows;
    assert_eq!(
        name_under("C:\\Users\\me\\docs", "C:\\Users\\me\\docs\\a.txt", w),
        Some("docs\\a.txt".to_string())
    );
    assert_eq!(name_under("c:\\Users\\docs", "C:/Users/docs/a", w), Some("docs/a".to_string()));
    assert_eq!(name_under("C:docs", "C:docs\\a", w), Some("docs\\a".to_string()));
    assert_eq!(name_under("C:\\docs", "D:\\docs\\a", w), None);
}

#[test]
fn file_names() {
    let u = PathStyle::Unix;
    let cases = ["/x/b.txt", "b.txt", "/x/b.txt/", "/x/./", "/", "..", "/x/..", ".", "", "a/.", "a//b"];
    for p in cases {
        assert_eq!(
            file_name(p, u),
            std::path::Path::new(p).file_name().map(|n| n.to_string_lossy().to_string()),
            "{}",
            p
        );
    }
    assert_eq!(file_name("C:\\x\\b.txt", PathStyle::Windows), Some("b.txt".to_string()));
    assert_eq!(file_name("C:\\x\\b.txt", u), Some("C:\\x\\b.txt".to_string()));
    assert_eq!(file_name("C:", PathStyle::Windows), None);
}
