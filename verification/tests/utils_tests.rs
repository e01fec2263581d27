//! Tests of the common-prefix utility.

use package_validator::utils::find_common_prefix;

#[test]
fn test_find_common_prefix_empty() {
    let paths: Vec<String> = vec![];
    assert_eq!(find_common_prefix(&paths), None);
}

#[test]
fn test_find_common_prefix_single() {
    let paths = vec!["/usr/lib/foo".to_string()];
    assert_eq!(
        find_common_prefix(&paths),
        Some("/usr/lib/foo".to_string())
    );
}

#[test]
fn test_find_common_prefix_multiple() {
    let paths = vec![
        "/usr/lib/foo".to_string(),
        "/usr/lib/bar".to_string(),
        "/usr/lib/baz".to_string(),
    ];
    assert_eq!(find_common_prefix(&paths), Some("/usr/lib".to_string()));
}

#[test]
fn test_find_common_prefix_no_common() {
    let paths = vec!["/usr/lib/foo".to_string(), "/opt/lib/bar".to_string()];
    assert_eq!(find_common_prefix(&paths), Some("/".to_string()));
}

#[test]
fn test_find_common_prefix_relative() {
    let paths = vec!["usr/lib/foo".to_string(), "opt/lib/bar".to_string()];
    assert_eq!(find_common_prefix(&paths), None);
}
