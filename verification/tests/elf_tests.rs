//! Tests of the ELF reader: extension pre-filter, search-path
//! normalization and validation, and byte-level parsing.

use package_validator::elf::{Elf, ElfError, ElfType};
use package_validator::package::PackageFile;
use package_validator::strutil::parent_dir;

fn push_u16(v: &mut Vec<u8>, x: u16) {
    v.extend_from_slice(&x.to_le_bytes());
}

fn push_u32(v: &mut Vec<u8>, x: u32) {
    v.extend_from_slice(&x.to_le_bytes());
}

fn push_u64(v: &mut Vec<u8>, x: u64) {
    v.extend_from_slice(&x.to_le_bytes());
}

/// Assemble a minimal 64-bit little-endian ELF file: one loadable
/// segment mapping the file at virtual address 0, and a dynamic section
/// holding the given `DT_NEEDED`, `DT_RPATH` and `DT_RUNPATH` entries.
fn make_elf(e_type: u16, needed: &[&str], rpath: Option<&str>, runpath: Option<&str>) -> Vec<u8> {
    // string table, entry 0 empty by convention
    let mut strtab: Vec<u8> = vec![0];
    let mut needed_offs: Vec<u64> = Vec::new();
    for s in needed {
        needed_offs.push(strtab.len() as u64);
        strtab.extend_from_slice(s.as_bytes());
        strtab.push(0);
    }
    let mut add_str = |s: &str, strtab: &mut Vec<u8>| -> u64 {
        let o = strtab.len() as u64;
        strtab.extend_from_slice(s.as_bytes());
        strtab.push(0);
        o
    };
    let rp_off = rpath.map(|s| add_str(s, &mut strtab));
    let runp_off = runpath.map(|s| add_str(s, &mut strtab));

    let mut dyns: Vec<(u64, u64)> = Vec::new();
    for o in &needed_offs {
        dyns.push((1, *o)); // DT_NEEDED
    }
    if let Some(o) = rp_off {
        dyns.push((15, o)); // DT_RPATH
    }
    if let Some(o) = runp_off {
        dyns.push((29, o)); // DT_RUNPATH
    }
    let dyn_off: u64 = 176; // 64-byte header + two 56-byte program headers
    let strtab_off = dyn_off + 16 * (dyns.len() as u64 + 3);
    dyns.push((5, strtab_off)); // DT_STRTAB (identity-mapped, vaddr == offset)
    dyns.push((10, strtab.len() as u64)); // DT_STRSZ
    dyns.push((0, 0)); // DT_NULL
    let dyn_size = 16 * dyns.len() as u64;
    let total = strtab_off + strtab.len() as u64;

    let mut v: Vec<u8> = Vec::new();
    // ELF header
    v.extend_from_slice(&[0x7f, 0x45, 0x4c, 0x46, 2, 1, 1, 0, 0, 0, 0, 0, 0, 0, 0, 0]);
    push_u16(&mut v, e_type);
    push_u16(&mut v, 0x3e); // x86-64
    push_u32(&mut v, 1);
    push_u64(&mut v, 0); // entry
    push_u64(&mut v, 64); // phoff
    push_u64(&mut v, 0); // shoff
    push_u32(&mut v, 0); // flags
    push_u16(&mut v, 64); // ehsize
    push_u16(&mut v, 56); // phentsize
    push_u16(&mut v, 2); // phnum
    push_u16(&mut v, 0); // shentsize
    push_u16(&mut v, 0); // shnum
    push_u16(&mut v, 0); // shstrndx
    assert_eq!(v.len(), 64);
    // PT_LOAD covering the whole file at vaddr 0
    push_u32(&mut v, 1); // PT_LOAD
    push_u32(&mut v, 4); // R
    push_u64(&mut v, 0); // offset
    push_u64(&mut v, 0); // vaddr
    push_u64(&mut v, 0); // paddr
    push_u64(&mut v, total); // filesz
    push_u64(&mut v, total); // memsz
    push_u64(&mut v, 0x1000); // align
    // PT_DYNAMIC
    push_u32(&mut v, 2); // PT_DYNAMIC
    push_u32(&mut v, 4); // R
    push_u64(&mut v, dyn_off);
    push_u64(&mut v, dyn_off);
    push_u64(&mut v, dyn_off);
    push_u64(&mut v, dyn_size);
    push_u64(&mut v, dyn_size);
    push_u64(&mut v, 8);
    assert_eq!(v.len() as u64, dyn_off);
    for (tag, val) in &dyns {
        push_u64(&mut v, *tag);
        push_u64(&mut v, *val);
    }
    assert_eq!(v.len() as u64, strtab_off);
    v.extend_from_slice(&strtab);
    v
}

#[test]
fn test_is_invalid_extension() {
    let result = Elf::is_invalid_extension("not_elf.txt");
    assert!(result);

    let result = Elf::is_invalid_extension("is_elf.so");
    assert!(!result);
}

#[test]
fn test_normalize_path_absolute() {
    let origin = parent_dir("/usr/bin/test_binary");
    let rpath = "/usr/lib".to_string();

    let result = Elf::normalize_path(origin.as_str(), &rpath);
    assert_eq!(result, Some("/usr/lib".to_string()));
}

#[test]
fn test_normalize_rpath_relative() {
    let origin = parent_dir("/usr/bin/test_binary");
    let rpath = "../lib".to_string();

    let result = Elf::normalize_path(origin.as_str(), &rpath);
    // Relative paths without $ORIGIN return None
    assert_eq!(result, None);
}

#[test]
fn test_normalize_path_origin_not_at_start() {
    let origin = parent_dir("/usr/bin/test_binary");

    // Paths with $ORIGIN not at the start should return None (invalid)
    assert_eq!(Elf::normalize_path(origin.as_str(), "../$ORIGIN/lib"), None);
    assert_eq!(Elf::normalize_path(origin.as_str(), "./$ORIGIN/lib"), None);
    assert_eq!(Elf::normalize_path(origin.as_str(), "../${ORIGIN}/lib"), None);
    assert_eq!(Elf::normalize_path(origin.as_str(), "prefix/$ORIGIN/lib"), None);

    // But $ORIGIN at the start should work
    let result = Elf::normalize_path(origin.as_str(), "$ORIGIN/../lib");
    assert!(result.is_some());
    let resolved = result.unwrap();
    assert_eq!(resolved, "/usr/lib".to_string());
}

#[test]
fn test_normalize_rpath_origin() {
    let origin = parent_dir("/usr/bin/test_binary");
    let rpath = "$ORIGIN/../lib".to_string();

    let resolved = Elf::normalize_path(origin.as_str(), &rpath);
    assert!(resolved.is_some());
    let resolved = resolved.unwrap();
    // $ORIGIN/../lib with origin /usr/bin resolves to /usr/bin/../lib which cleans to /usr/lib
    assert_eq!(resolved, "/usr/lib".to_string());
}

#[test]
fn test_normalize_path_origin_braces() {
    let origin = parent_dir("/usr/bin/test_binary");
    let rpath = "${ORIGIN}/../lib".to_string();

    let resolved = Elf::normalize_path(origin.as_str(), &rpath);
    assert!(resolved.is_some());
    let resolved = resolved.unwrap();
    // ${ORIGIN}/../lib with origin /usr/bin resolves to /usr/bin/../lib which cleans to /usr/lib
    assert_eq!(resolved, "/usr/lib".to_string());
}

#[test]
fn test_normalize_paths() {
    let origin = parent_dir("/usr/bin/test_binary");

    // Test with RUNPATH (takes precedence over RPATH)
    let elf = Elf::new(
        ElfType::Executable,
        Vec::new(),
        vec!["/usr/lib".to_string()],
        vec!["/opt/lib".to_string()],
    );

    let normalized = elf.normalize_paths(origin.as_str());
    // When RUNPATH is present, only RUNPATH is processed (RPATH is ignored)
    assert_eq!(normalized.len(), 1);
    assert_eq!(normalized, vec!["/opt/lib".to_string()]);

    // Test with only RPATH
    let elf_rpath_only = Elf::new(
        ElfType::Executable,
        Vec::new(),
        vec!["/usr/lib".to_string()],
        Vec::new(),
    );

    let normalized_rpath = elf_rpath_only.normalize_paths(origin.as_str());
    assert_eq!(normalized_rpath.len(), 1);
    assert_eq!(normalized_rpath, vec!["/usr/lib".to_string()]);
}

#[test]
fn test_validate_absolute_paths() {
    let rpath = vec!["/usr/lib".to_string(), "/opt/lib".to_string()];
    let runpath = Vec::new();
    assert!(Elf::validate(&rpath, &runpath).is_ok());
}

#[test]
fn test_validate_origin_paths() {
    let rpath = vec!["$ORIGIN/../lib".to_string(), "${ORIGIN}/lib".to_string()];
    let runpath = Vec::new();
    assert!(Elf::validate(&rpath, &runpath).is_ok());
}

#[test]
fn test_validate_invalid_relative_paths() {
    let rpath = vec!["../lib".to_string(), "./lib".to_string()];
    let runpath = Vec::new();
    let errors = Elf::validate(&rpath, &runpath).expect_err("Expected invalid paths");
    assert_eq!(errors.len(), 2);
    assert!(errors.iter().any(|e| e.contains("../lib")));
    assert!(errors.iter().any(|e| e.contains("./lib")));
}

#[test]
fn test_validate_both_runpath_and_rpath() {
    // Both should be validated even though RUNPATH takes precedence at runtime
    let rpath = vec!["../lib".to_string()];
    let runpath = vec!["/opt/lib".to_string(), "./lib".to_string()];
    let errors = Elf::validate(&rpath, &runpath).expect_err("Expected invalid paths");
    assert_eq!(errors.len(), 2); // One from RPATH, one from RUNPATH
    assert!(errors
        .iter()
        .any(|e| e.contains("RPATH") && e.contains("../lib")));
    assert!(errors
        .iter()
        .any(|e| e.contains("RUNPATH") && e.contains("./lib")));
}

#[test]
fn test_validate_mixed_valid_invalid() {
    let rpath = vec!["/usr/lib".to_string(), "../lib".to_string()];
    let runpath = Vec::new();
    let errors = Elf::validate(&rpath, &runpath).expect_err("Expected invalid paths");
    assert_eq!(errors.len(), 1);
    assert!(errors.iter().any(|e| e.contains("../lib")));
}

#[test]
fn test_validate_origin_with_relative_prefix() {
    // Paths with any content before $ORIGIN are invalid
    // because that content is resolved relative to CWD before $ORIGIN substitution
    let rpath = vec![
        "../${ORIGIN}/lib".to_string(),
        "./$ORIGIN/lib".to_string(),
        "../$ORIGIN/lib".to_string(),
        "some/path/$ORIGIN/lib".to_string(),
        "prefix/${ORIGIN}/lib".to_string(),
    ];
    let runpath = Vec::new();
    let errors = Elf::validate(&rpath, &runpath)
        .expect_err("Expected invalid paths with content before $ORIGIN");
    assert_eq!(errors.len(), 5);
    assert!(errors.iter().any(|e| e.contains("../${ORIGIN}")));
    assert!(errors.iter().any(|e| e.contains("./$ORIGIN")));
    assert!(errors.iter().any(|e| e.contains("../$ORIGIN")));
    assert!(errors.iter().any(|e| e.contains("some/path/$ORIGIN")));
    assert!(errors.iter().any(|e| e.contains("prefix/${ORIGIN}")));
}

#[test]
fn test_validate_origin_at_start() {
    // $ORIGIN at the start is valid
    let rpath = vec![
        "$ORIGIN/../lib".to_string(),
        "${ORIGIN}/lib".to_string(),
        "$ORIGIN/lib".to_string(),
    ];
    let runpath = Vec::new();
    assert!(Elf::validate(&rpath, &runpath).is_ok());
}

#[test]
fn test_elf_valid_absolute_rpath() {
    let bytes = make_elf(2, &[], Some("/usr/lib"), None);
    let elf = Elf::from_bytes(&bytes).expect("Should parse valid ELF with absolute RPATH");
    assert!(!elf.rpath().is_empty(), "RPATH should not be empty");
    assert!(
        elf.rpath().iter().any(|p| p == "/usr/lib"),
        "RPATH should contain '/usr/lib', got: {:?}",
        elf.rpath()
    );
}

#[test]
fn test_elf_valid_origin_rpath() {
    let bytes = make_elf(2, &[], Some("$ORIGIN/../lib"), None);
    let elf = Elf::from_bytes(&bytes).expect("Should parse valid ELF with $ORIGIN RPATH");
    assert!(!elf.rpath().is_empty(), "RPATH should not be empty");
    assert!(
        elf.rpath().iter().any(|p| p == "$ORIGIN/../lib"),
        "RPATH should contain '$ORIGIN/../lib', got: {:?}",
        elf.rpath()
    );
}

#[test]
fn test_elf_valid_origin_braces_rpath() {
    let bytes = make_elf(2, &[], Some("${ORIGIN}/lib"), None);
    let elf = Elf::from_bytes(&bytes).expect("Should parse valid ELF with ${ORIGIN} RPATH");
    assert!(!elf.rpath().is_empty(), "RPATH should not be empty");
    assert!(
        elf.rpath().iter().any(|p| p == "${ORIGIN}/lib"),
        "RPATH should contain '${{ORIGIN}}/lib', got: {:?}",
        elf.rpath()
    );
}

#[test]
fn test_elf_valid_runpath() {
    let bytes = make_elf(2, &[], None, Some("/opt/lib"));
    let elf = Elf::from_bytes(&bytes).expect("Should parse valid ELF with RUNPATH");
    assert!(!elf.runpath().is_empty(), "RUNPATH should not be empty");
    assert!(
        elf.runpath().iter().any(|p| p == "/opt/lib"),
        "RUNPATH should contain '/opt/lib', got: {:?}",
        elf.runpath()
    );
}

#[test]
fn test_elf_invalid_relative_rpath() {
    let bytes = make_elf(2, &[], Some("../lib"), None);
    let result = Elf::from_bytes(&bytes);
    match result {
        Err(ElfError::InvalidPaths { paths }) => {
            assert!(
                paths.iter().any(|p| p.contains("../lib")),
                "Error should mention '../lib', got: {:?}",
                paths
            );
        }
        Ok(_) => panic!("Expected invalid paths"),
        Err(e) => panic!("Unexpected error: {:?}", e),
    }
}

#[test]
fn test_elf_invalid_relative_dot_rpath() {
    let bytes = make_elf(2, &[], Some("./lib"), None);
    let result = Elf::from_bytes(&bytes);
    match result {
        Err(ElfError::InvalidPaths { paths }) => {
            assert!(
                paths.iter().any(|p| p.contains("./lib")),
                "Error should mention './lib', got: {:?}",
                paths
            );
        }
        Ok(_) => panic!("Expected invalid paths"),
        Err(e) => panic!("Unexpected error: {:?}", e),
    }
}

#[test]
fn test_elf_invalid_prefix_origin_rpath() {
    let bytes = make_elf(2, &[], Some("../$ORIGIN"), None);
    let result = Elf::from_bytes(&bytes);
    match result {
        Err(ElfError::InvalidPaths { paths }) => {
            assert!(
                paths
                    .iter()
                    .any(|p| p.contains("../$ORIGIN") || p.contains("RPATH")),
                "Error should mention '../$ORIGIN' or 'RPATH', got: {:?}",
                paths
            );
        }
        Ok(_) => panic!("Expected invalid paths"),
        Err(e) => panic!("Unexpected error: {:?}", e),
    }
}

#[test]
fn test_elf_file_too_small() {
    let bytes: Vec<u8> = vec![0x7f, 0x45, 0x4c, 0x46];
    let result = Elf::from_bytes(&bytes);
    match result {
        Err(ElfError::FileTooSmall) => {}
        Ok(_) => panic!("Expected FileTooSmall or NotElfFile error"),
        Err(e) => panic!("Unexpected error: {:?}", e),
    }
}

#[test]
fn test_elf_not_elf_file() {
    let bytes: Vec<u8> = vec![0x41; 128];
    let result = Elf::from_bytes(&bytes);
    match result {
        Err(ElfError::NotElfFile) => {}
        Ok(_) => panic!("Expected NotElfFile or FileTooSmall error"),
        Err(e) => panic!("Unexpected error: {:?}", e),
    }
}

#[test]
fn test_elf_needed_entries_in_order() {
    let bytes = make_elf(3, &["libone.so", "libtwo.so"], None, Some("/opt/lib"));
    let elf = Elf::from_bytes(&bytes).expect("Should parse shared object");
    assert_eq!(*elf.kind(), ElfType::SharedObject);
    assert_eq!(
        elf.dependencies(),
        &vec!["libone.so".to_string(), "libtwo.so".to_string()]
    );
}

#[test]
fn test_elf_colon_split_runpath() {
    let bytes = make_elf(2, &[], None, Some("/opt/lib::/usr/local/lib"));
    let elf = Elf::from_bytes(&bytes).expect("Should parse ELF");
    // empty components of the colon-separated list are dropped
    assert_eq!(
        elf.runpath(),
        &vec!["/opt/lib".to_string(), "/usr/local/lib".to_string()]
    );
}

#[test]
fn test_classify_file_bytes() {
    // a skipped extension is a plain file without looking at the bytes
    let bytes = make_elf(2, &[], None, None);
    let r = PackageFile::from_file_bytes("/usr/share/doc/readme.txt", &bytes).unwrap();
    assert!(matches!(r, PackageFile::File));
    // real ELF bytes make an ELF entry
    let r = PackageFile::from_file_bytes("/usr/bin/app", &bytes).unwrap();
    match r {
        PackageFile::Elf(e) => assert_eq!(*e.kind(), ElfType::Executable),
        other => panic!("Expected an ELF entry, got {:?}", other),
    }
    // non-ELF bytes make a plain file
    let r = PackageFile::from_file_bytes("/usr/share/doc/readme", &vec![0x41; 100]).unwrap();
    assert!(matches!(r, PackageFile::File));
    // an ELF with a rejected search path is an error
    let bad = make_elf(2, &[], Some("../lib"), None);
    let r = PackageFile::from_file_bytes("/usr/bin/app2", &bad);
    assert!(matches!(r, Err(ElfError::InvalidPaths { .. })));
}

#[test]
fn test_elf_unknown_type() {
    let bytes = make_elf(9, &[], None, None);
    let result = Elf::from_bytes(&bytes);
    match result {
        Err(ElfError::UnknownElfType) => {}
        other => panic!("Unexpected result: {:?}", other),
    }
}
