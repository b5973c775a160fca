use dirzip::paths::{is_safe_name, normalize_path};

#[test]
fn normalize_replaces_backslashes() {
    assert_eq!(normalize_path("sub\\b.txt"), "sub/b.txt");
    assert_eq!(normalize_path("a\\b\\c.txt"), "a/b/c.txt");
}

#[test]
fn normalize_keeps_forward_slashes() {
    assert_eq!(normalize_path("sub/b.txt"), "sub/b.txt");
    assert_eq!(normalize_path(""), "");
    assert_eq!(normalize_path("plain.txt"), "plain.txt");
}

#[test]
fn safe_names_accepted() {
    assert!(is_safe_name("a.txt"));
    assert!(is_safe_name("sub/b.txt"));
    assert!(is_safe_name("sub/"));
    assert!(is_safe_name("deep/er/tree/x"));
    assert!(is_safe_name("..hidden"));
    assert!(is_safe_name("a..b"));
    assert!(is_safe_name("x/..y/z"));
    assert!(is_safe_name("./x"));
}

#[test]
fn unsafe_names_rejected() {
    assert!(!is_safe_name(""));
    assert!(!is_safe_name("/abs.txt"));
    assert!(!is_safe_name(".."));
    assert!(!is_safe_name("../evil.txt"));
    assert!(!is_safe_name("x/.."));
    assert!(!is_safe_name("x/../y"));
    assert!(!is_safe_name("x/../"));
    assert!(!is_safe_name("a//b"));
    assert!(!is_safe_name("a\\b"));
    assert!(!is_safe_name("sub\\..\\..\\etc"));
}
