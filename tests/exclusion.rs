use embeddings::graph::is_excluded;

#[test]
fn test_is_excluded_excludes_directory_prefix() {
    let path = "/Notes/Archive/2024-01.md";
    let excludes = vec!["/Notes/Archive".to_string()];
    assert!(is_excluded(path, &excludes));
}

#[test]
fn test_is_excluded_does_not_match_similar_directory() {
    let path = "/Notes/Archive-test/2024-01.md";
    let excludes = vec!["/Notes/Archive".to_string()];
    assert!(!is_excluded(path, &excludes));
}

#[test]
fn test_is_excluded_excludes_exact_file() {
    let path = "/Notes/Templates/daily.md";
    let excludes = vec!["/Notes/Templates/daily.md".to_string()];
    assert!(is_excluded(path, &excludes));
}

#[test]
fn test_is_excluded_does_not_match_file_in_directory() {
    let path = "/Notes/foo/daily.md";
    let excludes = vec!["/Notes/Templates/daily.md".to_string()];
    assert!(!is_excluded(path, &excludes));
}

#[test]
fn test_is_excluded_handles_multiple_patterns() {
    let excludes = vec!["/Notes/Archive".to_string(), "/Notes/Templates".to_string()];
    assert!(is_excluded("/Notes/Archive/old.md", &excludes));
    assert!(is_excluded("/Notes/Templates/template.md", &excludes));
    assert!(!is_excluded("/Notes/Projects/foo.md", &excludes));
}

#[test]
fn test_is_excluded_returns_false_for_empty_patterns() {
    let path = "/Notes/foo.md";
    let excludes: Vec<String> = vec![];
    assert!(!is_excluded(path, &excludes));
}

#[test]
fn test_is_excluded_nested_directory() {
    let path = "/Notes/Journal/2024/01/16.md";
    let excludes = vec!["/Notes/Journal/2024".to_string()];
    assert!(is_excluded(path, &excludes));
}
