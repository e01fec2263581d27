//! Tests of the error scanner: shipped files whose basename collides
//! with a declared system dependency.

use package_validator::errors::{scan_for_errors, ReportError};
use package_validator::package::{Package, PackageFile};
use package_validator::symlink_resolver::SymlinkResolver;
use package_validator::system_dependencies::SystemDependencies;

fn create_system_dependencies(deps: &[&str]) -> SystemDependencies {
    let mut content = String::new();
    for dep in deps {
        content.push_str(dep);
        content.push('\n');
    }
    SystemDependencies::from_content(content.as_str())
}

fn create_test_package(files: Vec<(&str, PackageFile)>) -> Package {
    let entries: Vec<(String, PackageFile)> = files
        .into_iter()
        .map(|(path, file)| (path.to_string(), file))
        .collect();
    Package::new_from_entries("/test/package.deb".to_string(), entries)
}

fn assert_error_matches(error: &ReportError, expected_dependency: &str, expected_paths: &[&str]) {
    match error {
        ReportError::SystemDependencyFoundInPackage { dependency, paths } => {
            assert_eq!(dependency, expected_dependency);
            assert_eq!(paths.len(), expected_paths.len());
            for expected_path in expected_paths {
                assert!(
                    paths.iter().any(|p| p == expected_path),
                    "Expected path {} not found in {:?}",
                    expected_path,
                    paths
                );
            }
        }
    }
}

fn get_error_dependencies(errors: &Vec<ReportError>) -> Vec<String> {
    errors
        .iter()
        .map(|e| match e {
            ReportError::SystemDependencyFoundInPackage { dependency, .. } => dependency.clone(),
        })
        .collect()
}

#[test]
fn test_no_errors_when_no_system_dependencies() {
    let package = create_test_package(vec![
        ("/usr/bin/myapp", PackageFile::File),
        ("/usr/lib/myapp.so", PackageFile::File),
    ]);
    let system_deps = create_system_dependencies(&["libm.so.6", "libc.so.6"]);
    let symlink_resolver = SymlinkResolver::new(&package);

    let errors = scan_for_errors(&package, &symlink_resolver, &system_deps);
    assert!(errors.is_empty());
}

#[test]
fn test_error_detected_for_single_system_dependency() {
    let package = create_test_package(vec![
        ("/usr/bin/myapp", PackageFile::File),
        ("/usr/lib/libm.so.6", PackageFile::File),
    ]);
    let system_deps = create_system_dependencies(&["libm.so.6"]);
    let symlink_resolver = SymlinkResolver::new(&package);

    let errors = scan_for_errors(&package, &symlink_resolver, &system_deps);
    assert_eq!(errors.len(), 1);
    assert_error_matches(&errors[0], "libm.so.6", &["/usr/lib/libm.so.6"]);
}

#[test]
fn test_multiple_paths_for_same_dependency() {
    let package = create_test_package(vec![
        ("/usr/lib/libm.so.6", PackageFile::File),
        ("/usr/lib/x86_64-linux-gnu/libm.so.6", PackageFile::File),
        ("/opt/lib/libm.so.6", PackageFile::File),
    ]);
    let system_deps = create_system_dependencies(&["libm.so.6"]);
    let symlink_resolver = SymlinkResolver::new(&package);

    let errors = scan_for_errors(&package, &symlink_resolver, &system_deps);
    assert_eq!(errors.len(), 1);
    assert_error_matches(
        &errors[0],
        "libm.so.6",
        &[
            "/usr/lib/libm.so.6",
            "/usr/lib/x86_64-linux-gnu/libm.so.6",
            "/opt/lib/libm.so.6",
        ],
    );
}

#[test]
fn test_multiple_different_system_dependencies() {
    let package = create_test_package(vec![
        ("/usr/lib/libm.so.6", PackageFile::File),
        ("/usr/lib/libc.so.6", PackageFile::File),
        ("/usr/lib/libpthread.so.0", PackageFile::File),
        ("/usr/bin/myapp", PackageFile::File),
    ]);
    let system_deps = create_system_dependencies(&["libm.so.6", "libc.so.6", "libpthread.so.0"]);
    let symlink_resolver = SymlinkResolver::new(&package);

    let errors = scan_for_errors(&package, &symlink_resolver, &system_deps);
    assert_eq!(errors.len(), 3);

    let error_deps = get_error_dependencies(&errors);
    assert!(error_deps.iter().any(|d| d == "libm.so.6"));
    assert!(error_deps.iter().any(|d| d == "libc.so.6"));
    assert!(error_deps.iter().any(|d| d == "libpthread.so.0"));
}

#[test]
fn test_filename_matching_exact_only() {
    let package = create_test_package(vec![
        ("/usr/lib/libm.so", PackageFile::File),
        ("/usr/lib/libm.so.6", PackageFile::File),
        ("/usr/lib/libm.so.6.0", PackageFile::File),
    ]);
    // Only libm.so.6 is a system dependency
    let system_deps = create_system_dependencies(&["libm.so.6"]);
    let symlink_resolver = SymlinkResolver::new(&package);

    let errors = scan_for_errors(&package, &symlink_resolver, &system_deps);
    assert_eq!(errors.len(), 1);
    assert_error_matches(&errors[0], "libm.so.6", &["/usr/lib/libm.so.6"]);
}

#[test]
fn test_files_in_different_directories_same_filename() {
    let package = create_test_package(vec![
        ("/usr/lib/libm.so.6", PackageFile::File),
        ("/usr/lib/x86_64-linux-gnu/libm.so.6", PackageFile::File),
        ("/opt/custom/libm.so.6", PackageFile::File),
    ]);
    let system_deps = create_system_dependencies(&["libm.so.6"]);
    let symlink_resolver = SymlinkResolver::new(&package);

    let errors = scan_for_errors(&package, &symlink_resolver, &system_deps);
    assert_eq!(errors.len(), 1);
    assert_error_matches(
        &errors[0],
        "libm.so.6",
        &[
            "/usr/lib/libm.so.6",
            "/usr/lib/x86_64-linux-gnu/libm.so.6",
            "/opt/custom/libm.so.6",
        ],
    );
}

#[test]
fn test_empty_system_dependencies() {
    let package = create_test_package(vec![
        ("/usr/lib/libm.so.6", PackageFile::File),
        ("/usr/lib/libc.so.6", PackageFile::File),
    ]);
    let system_deps = SystemDependencies::empty();
    let symlink_resolver = SymlinkResolver::new(&package);

    let errors = scan_for_errors(&package, &symlink_resolver, &system_deps);
    assert!(errors.is_empty());
}

#[test]
fn test_error_message_formatting() {
    let package = create_test_package(vec![
        ("/usr/lib/libm.so.6", PackageFile::File),
        ("/opt/lib/libm.so.6", PackageFile::File),
    ]);
    let system_deps = create_system_dependencies(&["libm.so.6"]);
    let symlink_resolver = SymlinkResolver::new(&package);

    let errors = scan_for_errors(&package, &symlink_resolver, &system_deps);
    assert_eq!(errors.len(), 1);

    let error_msg = errors[0].message();
    assert!(error_msg.contains("libm.so.6"));
    assert!(error_msg.contains("/usr/lib/libm.so.6"));
    assert!(error_msg.contains("/opt/lib/libm.so.6"));
    assert!(error_msg.contains("Found in package"));
}

#[test]
fn test_only_filename_matters_not_path() {
    let package = create_test_package(vec![
        ("/usr/bin/libm.so.6", PackageFile::File),
        ("/etc/libm.so.6", PackageFile::File),
        ("/tmp/libm.so.6", PackageFile::File),
    ]);
    let system_deps = create_system_dependencies(&["libm.so.6"]);
    let symlink_resolver = SymlinkResolver::new(&package);

    let errors = scan_for_errors(&package, &symlink_resolver, &system_deps);
    assert_eq!(errors.len(), 1);
    assert_error_matches(
        &errors[0],
        "libm.so.6",
        &["/usr/bin/libm.so.6", "/etc/libm.so.6", "/tmp/libm.so.6"],
    );
}

#[test]
fn test_symlink_pointing_outside_package_no_error() {
    // Symlink pointing to a path not in the package should NOT generate an error
    let package = create_test_package(vec![(
        "/usr/lib/libm.so.6",
        PackageFile::Symlink("/lib/x86_64-linux-gnu/libm.so.6".to_string()),
    )]);
    let system_deps = create_system_dependencies(&["libm.so.6"]);
    let symlink_resolver = SymlinkResolver::new(&package);

    let errors = scan_for_errors(&package, &symlink_resolver, &system_deps);
    // Should be empty because symlink points outside the package
    assert!(errors.is_empty());
}

#[test]
fn test_symlink_pointing_inside_package_generates_error() {
    // Symlink pointing to a file inside the package SHOULD generate an error
    let package = create_test_package(vec![
        ("/usr/lib/libm.so.6.actual", PackageFile::File),
        (
            "/usr/lib/libm.so.6",
            PackageFile::Symlink("/usr/lib/libm.so.6.actual".to_string()),
        ),
    ]);
    let system_deps = create_system_dependencies(&["libm.so.6"]);
    let symlink_resolver = SymlinkResolver::new(&package);

    let errors = scan_for_errors(&package, &symlink_resolver, &system_deps);
    assert_eq!(errors.len(), 1);
    assert_error_matches(&errors[0], "libm.so.6", &["/usr/lib/libm.so.6"]);
}

#[test]
fn test_mixed_regular_file_and_symlink_outside() {
    // Regular file should generate error, symlink pointing outside should not
    let package = create_test_package(vec![
        ("/usr/lib/libm.so.6", PackageFile::File),
        (
            "/usr/lib/libc.so.6",
            PackageFile::Symlink("/lib/x86_64-linux-gnu/libc.so.6".to_string()),
        ),
    ]);
    let system_deps = create_system_dependencies(&["libm.so.6", "libc.so.6"]);
    let symlink_resolver = SymlinkResolver::new(&package);

    let errors = scan_for_errors(&package, &symlink_resolver, &system_deps);
    // Only libm.so.6 (regular file) should generate error
    assert_eq!(errors.len(), 1);
    assert_error_matches(&errors[0], "libm.so.6", &["/usr/lib/libm.so.6"]);
}

#[test]
fn test_mixed_regular_file_and_symlink_inside() {
    // Both regular file and symlink pointing inside should generate errors
    let package = create_test_package(vec![
        ("/usr/lib/libm.so.6", PackageFile::File),
        ("/usr/lib/libc.so.6.actual", PackageFile::File),
        (
            "/usr/lib/libc.so.6",
            PackageFile::Symlink("/usr/lib/libc.so.6.actual".to_string()),
        ),
    ]);
    let system_deps = create_system_dependencies(&["libm.so.6", "libc.so.6"]);
    let symlink_resolver = SymlinkResolver::new(&package);

    let errors = scan_for_errors(&package, &symlink_resolver, &system_deps);
    assert_eq!(errors.len(), 2);

    let error_deps = get_error_dependencies(&errors);
    assert!(error_deps.iter().any(|d| d == "libm.so.6"));
    assert!(error_deps.iter().any(|d| d == "libc.so.6"));
}

#[test]
fn test_symlink_chain_pointing_inside() {
    // Symlink chain A -> B -> file, where file is in package, should generate error
    let package = create_test_package(vec![
        ("/usr/lib/libm.so.6.actual", PackageFile::File),
        (
            "/usr/lib/libm.so.6.intermediate",
            PackageFile::Symlink("/usr/lib/libm.so.6.actual".to_string()),
        ),
        (
            "/usr/lib/libm.so.6",
            PackageFile::Symlink("/usr/lib/libm.so.6.intermediate".to_string()),
        ),
    ]);
    let system_deps = create_system_dependencies(&["libm.so.6"]);
    let symlink_resolver = SymlinkResolver::new(&package);

    let errors = scan_for_errors(&package, &symlink_resolver, &system_deps);
    // The symlink chain resolves to a file inside the package, so it should generate an error
    assert_eq!(errors.len(), 1);
    assert_error_matches(&errors[0], "libm.so.6", &["/usr/lib/libm.so.6"]);
}

#[test]
fn test_symlink_chain_pointing_outside() {
    // Symlink chain A -> B -> file, where file is NOT in package, should NOT generate error
    let package = create_test_package(vec![
        (
            "/usr/lib/libm.so.6.intermediate",
            PackageFile::Symlink("/lib/x86_64-linux-gnu/libm.so.6".to_string()),
        ),
        (
            "/usr/lib/libm.so.6",
            PackageFile::Symlink("/usr/lib/libm.so.6.intermediate".to_string()),
        ),
    ]);
    let system_deps = create_system_dependencies(&["libm.so.6"]);
    let symlink_resolver = SymlinkResolver::new(&package);

    let errors = scan_for_errors(&package, &symlink_resolver, &system_deps);
    // The symlink chain resolves to a file outside the package, so it should NOT generate an error
    assert!(errors.is_empty());
}
