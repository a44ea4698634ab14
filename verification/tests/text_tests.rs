use loserar::text::{chars_of, ends_with, is_empty_text, push_decimal, same_text, with_forward_slashes};

#[test]
fn decimal_rendering_of_small_and_large_numbers() {
    let mut s = String::new();
    push_decimal(&mut s, 0);
    assert_eq!(s, "0");
    let mut s = String::from("n=");
    push_decimal(&mut s, 120);
    assert_eq!(s, "n=120");
    let mut s = String::new();
    push_decimal(&mut s, usize::MAX);
    assert_eq!(s, usize::MAX.to_string());
}

#[test]
fn backslashes_become_forward_slashes() {
    assert_eq!(with_forward_slashes("docs\\notes\\a.txt"), "docs/notes/a.txt");
    assert_eq!(with_forward_slashes("already/fine"), "already/fine");
    assert_eq!(with_forward_slashes(""), "");
    assert_eq!(with_forward_slashes("ünï\\çødé"), "ünï/çødé");
}

#[test]
fn suffix_and_equality_tests() {
    assert!(ends_with("archive.zip", ".zip"));
    assert!(!ends_with("archive.zipx", ".zip"));
    assert!(!ends_with("zip", ".zip"));
    assert!(ends_with("dir/", "/"));
    assert!(ends_with("anything", ""));
    assert!(same_text("..", ".."));
    assert!(!same_text("...", ".."));
    assert!(is_empty_text(""));
    assert!(!is_empty_text(" "));
}

#[test]
fn characters_of_a_text() {
    assert_eq!(chars_of("aé/"), vec!['a', 'é', '/']);
    assert!(chars_of("").is_empty());
}
