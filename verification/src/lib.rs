//! Analyzes the dynamic-linking consistency of Linux binary packages.
//!
//! Given the contents of an extracted DEB or RPM package and a set of
//! library names the host system is expected to provide, this library
//! parses every ELF object, validates its `RPATH`/`RUNPATH` entries,
//! resolves symlinks inside the package (detecting cycles), decides for
//! each declared dependency whether it is satisfied by the package, by
//! the host system, or missing, and aggregates the decisions into a
//! report with a final pass/fail verdict.

pub mod dependency_resolver;
pub mod elf;
pub mod errors;
pub mod package;
pub mod pathops;
pub mod report;
pub mod strutil;
pub mod symlink_resolver;
pub mod system_dependencies;
pub mod totals;
pub mod utils;

pub use elf::Elf;
pub use elf::ElfType;
pub use package::Package;
pub use package::PackageFile;
pub use report::Report;
pub use system_dependencies::SystemDependencies;
