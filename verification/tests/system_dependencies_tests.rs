//! Tests of the System Dependency Set: parsing the configuration text
//! and exact-name membership.

use package_validator::system_dependencies::SystemDependencies;

#[test]
fn test_empty_resolver() {
    let dependencies = SystemDependencies::empty();
    assert!(!dependencies.contains("libm.so"));
}

#[test]
fn test_simple_pattern() {
    let dependencies = SystemDependencies::from_content("libm.so.6\n");
    assert!(dependencies.contains("libm.so.6"));
    assert!(!dependencies.contains("libm.so"));
    assert!(!dependencies.contains("libc.so.6"));
}

#[test]
fn test_multiple_patterns() {
    let dependencies = SystemDependencies::from_content("libm.so.6\nlibc.so.6\nlibpthread.so.0\n");
    assert!(dependencies.contains("libm.so.6"));
    assert!(dependencies.contains("libc.so.6"));
    assert!(dependencies.contains("libpthread.so.0"));
    assert!(!dependencies.contains("libssl.so"));
}

#[test]
fn test_ignore_comments_and_empty_lines() {
    let dependencies = SystemDependencies::from_content(
        "# This is a comment\n\nlibm.so.6\n  # Another comment\nlibc.so.6\n",
    );
    assert!(dependencies.contains("libm.so.6"));
    assert!(dependencies.contains("libc.so.6"));
}

#[test]
fn test_trimming() {
    let dependencies =
        SystemDependencies::from_content("  libm.so.6  \nlibc.so.6\n\tlibpthread.so.0\t\n");
    // Lines are trimmed when reading, so exact matches work
    assert!(dependencies.contains("libm.so.6"));
    assert!(!dependencies.contains("  libm.so.6  "));
    assert!(dependencies.contains("libc.so.6"));
    assert!(dependencies.contains("libpthread.so.0"));
}

#[test]
fn test_duplicate_lines_kept_once() {
    let dependencies = SystemDependencies::from_content("libm.so.6\nlibm.so.6\n");
    assert!(dependencies.contains("libm.so.6"));
    assert_eq!(dependencies.dependencies().len(), 1);
}
