//! End-to-end scenarios: dependency resolution, scanning, aggregation,
//! and the final verdict on small concrete packages.

use package_validator::dependency_resolver::{
    resolve_dependency, DependencyKind, DependencyStatus,
};
use package_validator::elf::{Elf, ElfType};
use package_validator::errors::{scan_for_errors, ReportError};
use package_validator::package::{Package, PackageFile};
use package_validator::report::{missing_dependencies, validate_report, Report, ReportRejection};
use package_validator::symlink_resolver::SymlinkResolver;
use package_validator::system_dependencies::SystemDependencies;

fn plain_elf(kind: ElfType, needed: &[&str], rpath: &[&str], runpath: &[&str]) -> Elf {
    Elf::new(
        kind,
        needed.iter().map(|s| s.to_string()).collect(),
        rpath.iter().map(|s| s.to_string()).collect(),
        runpath.iter().map(|s| s.to_string()).collect(),
    )
}

fn make_package(files: Vec<(&str, PackageFile)>) -> Package {
    let entries: Vec<(String, PackageFile)> = files
        .into_iter()
        .map(|(path, file)| (path.to_string(), file))
        .collect();
    Package::new_from_entries("/test/package.deb".to_string(), entries)
}

fn sys_deps(deps: &[&str]) -> SystemDependencies {
    let mut content = String::new();
    for dep in deps {
        content.push_str(dep);
        content.push('\n');
    }
    SystemDependencies::from_content(content.as_str())
}

#[test]
fn scenario_found_in_package_via_origin_runpath() {
    // ELF at /usr/bin/app with runpath ["$ORIGIN/../lib"], needing
    // libhello.so shipped at /usr/lib/libhello.so
    let app = plain_elf(ElfType::Executable, &["libhello.so"], &[], &["$ORIGIN/../lib"]);
    let lib = plain_elf(ElfType::SharedObject, &[], &[], &[]);
    let package = make_package(vec![
        ("/usr/bin/app", PackageFile::Elf(app.clone())),
        ("/usr/lib/libhello.so", PackageFile::Elf(lib)),
    ]);
    let sys = SystemDependencies::empty();
    let resolver = SymlinkResolver::new(&package);

    let result = resolve_dependency(&package, &resolver, &sys, "/usr/bin/app", &app, "libhello.so");
    assert_eq!(result.status, DependencyStatus::Found);
    assert_eq!(result.kind, DependencyKind::Package);
    assert_eq!(result.path, Some("/usr/lib/libhello.so".to_string()));
    assert_eq!(result.searched_paths, vec!["/usr/lib".to_string()]);
}

#[test]
fn scenario_system_dependency_short_circuits() {
    // Same ELF needing libc.so.6 with {"libc.so.6"} host-provided:
    // found as a system dependency without consulting any directory
    let app = plain_elf(ElfType::Executable, &["libc.so.6"], &[], &["$ORIGIN/../lib"]);
    let lib = plain_elf(ElfType::SharedObject, &[], &[], &[]);
    let package = make_package(vec![
        ("/usr/bin/app", PackageFile::Elf(app.clone())),
        ("/usr/lib/libhello.so", PackageFile::Elf(lib)),
    ]);
    let sys = sys_deps(&["libc.so.6"]);
    let resolver = SymlinkResolver::new(&package);

    let result = resolve_dependency(&package, &resolver, &sys, "/usr/bin/app", &app, "libc.so.6");
    assert_eq!(result.status, DependencyStatus::Found);
    assert_eq!(result.kind, DependencyKind::System);
    assert_eq!(result.path, None);
    assert!(result.searched_paths.is_empty());
}

#[test]
fn scenario_relative_rpath_rejected() {
    // An ELF declaring rpath ["../lib"] fails validation with the
    // offender listed
    let errors = Elf::validate(&vec!["../lib".to_string()], &Vec::new())
        .expect_err("Expected invalid paths");
    assert_eq!(errors, vec!["RPATH: ../lib is invalid".to_string()]);
}

#[test]
fn scenario_symlink_cycle_reported() {
    // /usr/lib/A -> /usr/lib/B -> /usr/lib/A: both resolve to a cycle,
    // and a lookup landing on /usr/lib/A reports the cycle
    let app = plain_elf(ElfType::Executable, &["A"], &[], &["/usr/lib"]);
    let package = make_package(vec![
        ("/usr/bin/app", PackageFile::Elf(app.clone())),
        ("/usr/lib/A", PackageFile::Symlink("/usr/lib/B".to_string())),
        ("/usr/lib/B", PackageFile::Symlink("/usr/lib/A".to_string())),
    ]);
    let sys = SystemDependencies::empty();
    let resolver = SymlinkResolver::new(&package);
    assert!(matches!(
        resolver.resolve("/usr/lib/A"),
        Some(package_validator::symlink_resolver::SymlinkResolutionResult::CycleDetected)
    ));
    assert!(matches!(
        resolver.resolve("/usr/lib/B"),
        Some(package_validator::symlink_resolver::SymlinkResolutionResult::CycleDetected)
    ));

    let result = resolve_dependency(&package, &resolver, &sys, "/usr/bin/app", &app, "A");
    assert_eq!(
        result.status,
        DependencyStatus::Error("Symlink cycle detected: /usr/lib/A".to_string())
    );
    assert_eq!(result.kind, DependencyKind::Unknown);
    assert_eq!(result.path, None);
}

#[test]
fn scenario_shipped_system_dependency_reported() {
    // the package ships /usr/lib/libc.so.6 as a regular file while
    // libc.so.6 is declared host-provided: one offender record
    let package = make_package(vec![("/usr/lib/libc.so.6", PackageFile::File)]);
    let sys = sys_deps(&["libc.so.6"]);
    let resolver = SymlinkResolver::new(&package);

    let errors = scan_for_errors(&package, &resolver, &sys);
    assert_eq!(errors.len(), 1);
    match &errors[0] {
        ReportError::SystemDependencyFoundInPackage { dependency, paths } => {
            assert_eq!(dependency, "libc.so.6");
            assert_eq!(paths, &vec!["/usr/lib/libc.so.6".to_string()]);
        }
    }
}

#[test]
fn scenario_symlink_to_host_library_not_reported() {
    // the package only links to the host's libc: no offender, and a
    // dependency on libc.so.6 resolves as the system's
    let app = plain_elf(ElfType::Executable, &["libc.so.6"], &[], &["/usr/lib"]);
    let package = make_package(vec![
        ("/usr/bin/app", PackageFile::Elf(app.clone())),
        (
            "/usr/lib/libc.so.6",
            PackageFile::Symlink("/lib/x86_64-linux-gnu/libc.so.6".to_string()),
        ),
    ]);
    let sys = sys_deps(&["libc.so.6"]);
    let resolver = SymlinkResolver::new(&package);

    let errors = scan_for_errors(&package, &resolver, &sys);
    assert!(errors.is_empty());

    let result = resolve_dependency(&package, &resolver, &sys, "/usr/bin/app", &app, "libc.so.6");
    assert_eq!(result.status, DependencyStatus::Found);
    assert_eq!(result.kind, DependencyKind::System);
}

#[test]
fn scenario_symlink_out_of_package_system_lookup() {
    // without the short circuit: the name is not declared, the search
    // path leads to a symlink leaving the package, and the basename of
    // its target decides the system lookup
    let app = plain_elf(ElfType::Executable, &["libz.so.1"], &[], &["/usr/lib"]);
    let package = make_package(vec![
        ("/usr/bin/app", PackageFile::Elf(app.clone())),
        (
            "/usr/lib/libz.so.1",
            PackageFile::Symlink("/lib/other/libz.so.1.2".to_string()),
        ),
    ]);
    let sys = sys_deps(&["libz.so.1.2"]);
    let resolver = SymlinkResolver::new(&package);

    let result = resolve_dependency(&package, &resolver, &sys, "/usr/bin/app", &app, "libz.so.1");
    assert_eq!(result.status, DependencyStatus::Found);
    assert_eq!(result.kind, DependencyKind::System);
    assert_eq!(result.path, Some("/lib/other/libz.so.1.2".to_string()));
}

#[test]
fn scenario_found_in_package_but_not_elf() {
    // the candidate exists in the package but is no ELF object: an error
    let app = plain_elf(ElfType::Executable, &["libhello.so"], &[], &["/usr/lib"]);
    let package = make_package(vec![
        ("/usr/bin/app", PackageFile::Elf(app.clone())),
        ("/usr/lib/libhello.so", PackageFile::File),
    ]);
    let sys = SystemDependencies::empty();
    let resolver = SymlinkResolver::new(&package);

    let result = resolve_dependency(&package, &resolver, &sys, "/usr/bin/app", &app, "libhello.so");
    assert_eq!(
        result.status,
        DependencyStatus::Error(
            "Found in package, but not an ELF file: /usr/lib/libhello.so".to_string()
        )
    );
    assert_eq!(result.kind, DependencyKind::Package);
    assert_eq!(result.path, Some("/usr/lib/libhello.so".to_string()));
}

#[test]
fn scenario_missing_dependency() {
    // no search path holds the name and it is not host-provided
    let app = plain_elf(ElfType::Executable, &["libnone.so"], &[], &["/usr/lib"]);
    let package = make_package(vec![("/usr/bin/app", PackageFile::Elf(app.clone()))]);
    let sys = SystemDependencies::empty();
    let resolver = SymlinkResolver::new(&package);

    let result = resolve_dependency(&package, &resolver, &sys, "/usr/bin/app", &app, "libnone.so");
    assert_eq!(result.status, DependencyStatus::Missing);
    assert_eq!(result.kind, DependencyKind::Unknown);
    assert_eq!(result.path, None);
    assert_eq!(result.searched_paths, vec!["/usr/lib".to_string()]);
}

#[test]
fn scenario_runpath_precedence_in_search() {
    // with both lists declared, only runpath is consulted
    let app = plain_elf(
        ElfType::Executable,
        &["libhello.so"],
        &["/usr/lib"],
        &["/opt/lib"],
    );
    let package = make_package(vec![("/usr/bin/app", PackageFile::Elf(app.clone()))]);
    let sys = SystemDependencies::empty();
    let resolver = SymlinkResolver::new(&package);

    let result = resolve_dependency(&package, &resolver, &sys, "/usr/bin/app", &app, "libhello.so");
    assert_eq!(result.searched_paths, vec!["/opt/lib".to_string()]);
}

#[test]
fn scenario_order_preserved_in_search() {
    // declaration order decides, non-anchored entries are dropped
    let app = plain_elf(
        ElfType::Executable,
        &[],
        &[],
        &["/b/lib", "$ORIGIN/../lib", "bogus", "/a/lib"],
    );
    let normalized = app.normalize_paths("/usr/bin");
    assert_eq!(
        normalized,
        vec![
            "/b/lib".to_string(),
            "/usr/lib".to_string(),
            "/a/lib".to_string()
        ]
    );
}

#[test]
fn scenario_full_report_and_verdict() {
    let app = plain_elf(
        ElfType::Executable,
        &["libhello.so", "libc.so.6"],
        &[],
        &["$ORIGIN/../lib"],
    );
    let lib = plain_elf(ElfType::SharedObject, &["libc.so.6"], &[], &[]);
    let package = make_package(vec![
        ("/usr/bin/app", PackageFile::Elf(app)),
        ("/usr/lib/libhello.so", PackageFile::Elf(lib)),
        ("/usr/share/doc/readme", PackageFile::File),
    ]);
    let sys = sys_deps(&["libc.so.6"]);

    let report = Report::new(&package, &sys);
    assert_eq!(report.package, "/test/package.deb");
    assert_eq!(report.totals.files, 3);
    assert_eq!(report.totals.elfs.binaries, 1);
    assert_eq!(report.totals.elfs.shared_libraries, 1);
    assert_eq!(report.totals.elfs.total, 2);
    assert_eq!(report.totals.dependencies.found, 3);
    assert_eq!(report.totals.dependencies.missing, 0);
    assert_eq!(report.totals.dependencies.error, 0);
    assert_eq!(report.totals.dependencies.total, 3);
    assert_eq!(report.totals.dependencies.system, 2);
    assert_eq!(report.totals.dependencies.package, 1);
    assert_eq!(report.totals.dependencies.unknown, 0);
    // libhello.so and libc.so.6 are the distinct names
    assert_eq!(report.totals.dependencies.total_unique, 2);
    assert_eq!(report.totals.dependencies.found_unique, 2);
    assert_eq!(report.totals.dependencies.missing_unique, 0);
    assert!(report.errors.is_empty());
    assert_eq!(validate_report(&report), Ok(()));
    assert!(missing_dependencies(&report).is_empty());
}

#[test]
fn scenario_verdict_rejects_missing() {
    let app = plain_elf(ElfType::Executable, &["libnone.so"], &[], &[]);
    let package = make_package(vec![("/usr/bin/app", PackageFile::Elf(app))]);
    let sys = SystemDependencies::empty();

    let report = Report::new(&package, &sys);
    assert_eq!(report.totals.dependencies.missing, 1);
    assert_eq!(
        validate_report(&report),
        Err(ReportRejection::MissingDependencies { count: 1 })
    );
    let missing = missing_dependencies(&report);
    assert_eq!(missing.len(), 1);
    assert_eq!(missing[0].0, "/usr/bin/app");
    assert_eq!(missing[0].1, vec!["libnone.so".to_string()]);
}

#[test]
fn scenario_verdict_rejects_errors_first() {
    // an error outweighs a missing dependency in the verdict
    let app = plain_elf(
        ElfType::Executable,
        &["libnone.so", "libodd.so"],
        &[],
        &["/usr/lib"],
    );
    let package = make_package(vec![
        ("/usr/bin/app", PackageFile::Elf(app)),
        ("/usr/lib/libodd.so", PackageFile::File),
    ]);
    let sys = SystemDependencies::empty();

    let report = Report::new(&package, &sys);
    assert_eq!(report.totals.dependencies.error, 1);
    assert_eq!(report.totals.dependencies.missing, 1);
    assert_eq!(
        validate_report(&report),
        Err(ReportRejection::ErrorDependencies { count: 1 })
    );
}

#[test]
fn scenario_same_inputs_same_report() {
    // the core is deterministic: two runs on the same model agree
    let app = plain_elf(
        ElfType::Executable,
        &["libhello.so", "libnone.so"],
        &[],
        &["$ORIGIN/../lib"],
    );
    let lib = plain_elf(ElfType::SharedObject, &[], &[], &[]);
    let package = make_package(vec![
        ("/usr/bin/app", PackageFile::Elf(app)),
        ("/usr/lib/libhello.so", PackageFile::Elf(lib)),
        ("/usr/lib/libm.so.6", PackageFile::File),
    ]);
    let sys = sys_deps(&["libm.so.6"]);

    let r1 = Report::new(&package, &sys);
    let r2 = Report::new(&package, &sys);
    assert_eq!(r1.package, r2.package);
    assert_eq!(r1.totals, r2.totals);
    assert_eq!(r1.errors, r2.errors);
    assert_eq!(r1.dependencies, r2.dependencies);
    assert_eq!(r1.files, r2.files);
}

#[test]
fn scenario_totals_combine_pointwise() {
    // the combine step sums each count and recomputes the total
    let app = plain_elf(ElfType::Executable, &[], &[], &[]);
    let lib = plain_elf(ElfType::SharedObject, &[], &[], &[]);
    let p1 = make_package(vec![("/usr/bin/app", PackageFile::Elf(app))]);
    let p2 = make_package(vec![("/usr/lib/lib.so", PackageFile::Elf(lib))]);
    let sys = SystemDependencies::empty();
    let r1 = Report::new(&p1, &sys);
    let r2 = Report::new(&p2, &sys);
    let combined = r1.totals.elfs.add(r2.totals.elfs);
    assert_eq!(combined.binaries, 1);
    assert_eq!(combined.shared_libraries, 1);
    assert_eq!(combined.total, 2);
    let deps = r1.totals.dependencies.add(r2.totals.dependencies);
    assert_eq!(deps.total, 0);
}

#[test]
fn scenario_duplicate_needed_counted_once() {
    // a name listed twice in DT_NEEDED is resolved once
    let app = plain_elf(
        ElfType::Executable,
        &["libc.so.6", "libc.so.6"],
        &[],
        &[],
    );
    let package = make_package(vec![("/usr/bin/app", PackageFile::Elf(app))]);
    let sys = sys_deps(&["libc.so.6"]);

    let report = Report::new(&package, &sys);
    assert_eq!(report.totals.dependencies.total, 1);
    assert_eq!(report.totals.dependencies.found, 1);
}
