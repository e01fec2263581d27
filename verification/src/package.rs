//! The package model: the closed universe of the analysis, a mapping
//! from absolute in-package paths to file classifications.

use vstd::prelude::*;
use vstd::string::StrSliceExecFns;
use vstd::string::StringExecFns;
use crate::elf::{Elf, ElfView, ElfError, ElfErrorView, elf_result_of, invalid_extension_of};
use crate::pathops::{cleaned, clean_path};
use crate::strutil::{starts_with_char, starts_with_char_exec, join_of, join_path, str_eq};

verus! {

/// Classification of one package entry: a plain file, a symlink with its
/// normalized target, or a parsed ELF object.
#[derive(Debug, Clone)]
pub enum PackageFile {
    File,
    Symlink(String),
    Elf(Elf),
}

/// Mathematical model of a file classification.
pub enum FileView {
    File,
    Symlink(Seq<char>),
    Elf(ElfView),
}

impl View for PackageFile {
    type V = FileView;

    open spec fn view(&self) -> FileView {
        match self {
            PackageFile::File => FileView::File,
            PackageFile::Symlink(t) => FileView::Symlink(t@),
            PackageFile::Elf(e) => FileView::Elf(e@),
        }
    }
}

impl DeepView for PackageFile {
    type V = FileView;

    open spec fn deep_view(&self) -> FileView {
        self@
    }
}

/// The package's file mapping as a sequence of (path, classification)
/// pairs.
pub type FilesView = Seq<(Seq<char>, FileView)>;

/// First-match lookup in the file mapping; with unique keys, the match.
pub open spec fn lookup(files: FilesView, k: Seq<char>) -> Option<FileView>
    decreases files.len(),
{
    if files.len() == 0 {
        None
    } else if files[0].0 == k {
        Some(files[0].1)
    } else {
        lookup(files.skip(1), k)
    }
}

/// No two entries share a path.
pub open spec fn unique_keys(files: FilesView) -> bool {
    forall|i: int, j: int| 0 <= i < j < files.len() ==> files[i].0 != files[j].0
}

/// Looking up a key misses the first `n` entries when none of them holds
/// it.
pub proof fn lemma_lookup_skip(files: FilesView, k: Seq<char>, n: int)
    requires
        0 <= n <= files.len(),
        forall|j: int| 0 <= j < n ==> files[j].0 != k,
    ensures
        lookup(files, k) == lookup(files.skip(n), k),
    decreases n,
{
    if n > 0 {
        assert(files[0].0 != k);
        lemma_lookup_skip(files.skip(1), k, n - 1);
        assert(files.skip(1).skip(n - 1) =~= files.skip(n));
    } else {
        assert(files.skip(0) =~= files);
    }
}

/// A found entry is one of the pairs.
pub proof fn lemma_lookup_some_index(files: FilesView, k: Seq<char>)
    requires
        lookup(files, k) is Some,
    ensures
        exists|i: int|
            0 <= i < files.len() && files[i].0 == k && files[i].1 == lookup(files, k).unwrap(),
    decreases files.len(),
{
    if files.len() > 0 && files[0].0 != k {
        lemma_lookup_some_index(files.skip(1), k);
        let i = choose|i: int|
            0 <= i < files.skip(1).len() && files.skip(1)[i].0 == k && files.skip(1)[i].1 == lookup(
                files.skip(1),
                k,
            ).unwrap();
        assert(files[i + 1].0 == k && files[i + 1].1 == lookup(files, k).unwrap());
    }
}

/// With unique keys, entry `i` is what its key finds.
pub proof fn lemma_lookup_unique(files: FilesView, i: int)
    requires
        unique_keys(files),
        0 <= i < files.len(),
    ensures
        lookup(files, files[i].0) == Some(files[i].1),
    decreases files.len(),
{
    if i == 0 {
    } else {
        assert(files[0].0 != files[i].0);
        assert(unique_keys(files.skip(1))) by {
            assert(forall|a: int, b: int|
                0 <= a < b < files.skip(1).len() ==> files.skip(1)[a] == files[a + 1]
                    && files.skip(1)[b] == files[b + 1]);
        }
        lemma_lookup_unique(files.skip(1), i - 1);
        assert(files.skip(1)[i - 1] == files[i]);
    }
}

/// A package: its archive path and its file mapping, immutable for the
/// lifetime of one analysis.
pub struct Package {
    path: String,
    files: Vec<(String, PackageFile)>,
}

/// Mathematical model of a package.
pub struct PackageView {
    pub path: Seq<char>,
    pub files: FilesView,
}

impl View for Package {
    type V = PackageView;

    closed spec fn view(&self) -> PackageView {
        PackageView { path: self.path@, files: self.files.deep_view() }
    }
}

impl Package {
    /// The file mapping's keys are unique.
    pub open spec fn wf(&self) -> bool {
        unique_keys(self@.files)
    }

    /// Assemble a package from an archive path and a file mapping whose
    /// keys are unique.
    pub fn new_from_entries(path: String, files: Vec<(String, PackageFile)>) -> (r: Package)
        requires
            unique_keys(files.deep_view()),
        ensures
            r@.path == path@,
            r@.files == files.deep_view(),
            r.wf(),
    {
        Package { path, files }
    }

    /// The path of the package archive.
    pub fn path(&self) -> (r: &String)
        ensures
            r@ == self@.path,
    {
        &self.path
    }

    /// The file mapping.
    pub fn files(&self) -> (r: &Vec<(String, PackageFile)>)
        ensures
            r.deep_view() == self@.files,
    {
        &self.files
    }

    /// Look a path up in the file mapping.
    pub fn get(&self, k: &str) -> (r: Option<&PackageFile>)
        ensures
            match r {
                Some(f) => lookup(self@.files, k@) == Some(f@),
                None => lookup(self@.files, k@) is None,
            },
    {
        let mut i: usize = 0;
        while i < self.files.len()
            invariant
                i <= self.files.len(),
                forall|j: int| 0 <= j < i ==> self@.files[j].0 != k@,
            decreases self.files.len() - i,
        {
            if str_eq(self.files[i].0.as_str(), k) {
                proof {
                    lemma_lookup_skip(self@.files, k@, i as int);
                    assert(self@.files.skip(i as int)[0] == self@.files[i as int]);
                }
                return Some(&self.files[i].1);
            }
            i = i + 1;
        }
        proof {
            lemma_lookup_skip(self@.files, k@, i as int);
            assert(self@.files.skip(i as int).len() == 0);
        }
        None
    }

    /// Whether a path is a key of the file mapping.
    pub fn contains_path(&self, k: &str) -> (r: bool)
        ensures
            r == (lookup(self@.files, k@) is Some),
    {
        match self.get(k) {
            Some(_) => true,
            None => false,
        }
    }
}

/// The ELF entries of the mapping, in mapping order.
pub open spec fn elfs_of(files: FilesView) -> Seq<(Seq<char>, ElfView)> {
    files.filter_map(
        |p: (Seq<char>, FileView)|
            match p.1 {
                FileView::Elf(e) => Some((p.0, e)),
                _ => None,
            },
    )
}

/// The symlink entries of the mapping, in mapping order.
pub open spec fn symlinks_of(files: FilesView) -> Seq<(Seq<char>, Seq<char>)> {
    files.filter_map(
        |p: (Seq<char>, FileView)|
            match p.1 {
                FileView::Symlink(t) => Some((p.0, t)),
                _ => None,
            },
    )
}

pub(crate) fn clone_string_vec(v: &Vec<String>) -> (r: Vec<String>)
    ensures
        r@ == v@,
{
    let r = v.clone();
    proof {
        assert forall|i: int| 0 <= i < v@.len() implies r@[i] == v@[i] by {
            assert(vstd::pervasive::cloned::<String>(v@[i], r@[i]));
        }
        assert(r@ =~= v@);
    }
    r
}

fn clone_elf(e: &Elf) -> (r: Elf)
    ensures
        r@ == e@,
{
    let r = Elf::new(
        *e.kind(),
        clone_string_vec(e.dependencies()),
        clone_string_vec(e.rpath()),
        clone_string_vec(e.runpath()),
    );
    proof {
        assert(r@ =~~= e@);
    }
    r
}

impl Package {
    /// The ELF subset of the file mapping, in mapping order.
    #[verifier::loop_isolation(false)]
    pub fn elfs(&self) -> (r: Vec<(String, Elf)>)
        ensures
            r.deep_view() == elfs_of(self@.files),
    {
        let ghost f = |p: (Seq<char>, FileView)|
            match p.1 {
                FileView::Elf(e) => Some((p.0, e)),
                _ => None,
            };
        let mut out: Vec<(String, Elf)> = Vec::new();
        let mut i: usize = 0;
        proof {
            assert(self@.files.take(0) =~~= Seq::<(Seq<char>, FileView)>::empty());
            assert(out.deep_view() =~~= self@.files.take(0).filter_map(f));
        }
        while i < self.files.len()
            invariant
                i <= self.files.len(),
                out.deep_view() =~~= self@.files.take(i as int).filter_map(f),
            decreases self.files.len() - i,
        {
            let ghost prefix_seq = self@.files.take(i as int);
            let ghost elem = self@.files[i as int];
            proof {
                assert(self@.files.take(i + 1).drop_last() =~~= prefix_seq);
                assert(self@.files.take(i + 1).last() == elem);
            }
            let ghost preout = out.deep_view();
            match &self.files[i].1 {
                PackageFile::Elf(e) => {
                    let key = self.files[i].0.clone();
                    let ec = clone_elf(e);
                    out.push((key, ec));
                    proof {
                        assert(out.deep_view() =~~= preout.push((elem.0, elem.1->Elf_0)));
                        assert(out.deep_view() =~~= self@.files.take(i + 1).filter_map(f));
                    }
                },
                _ => {
                    proof {
                        assert(out.deep_view() =~~= self@.files.take(i + 1).filter_map(f));
                    }
                },
            }
            i = i + 1;
        }
        proof {
            assert(self@.files.take(self.files.len() as int) =~~= self@.files);
        }
        out
    }

    /// The symlink subset of the file mapping, in mapping order.
    #[verifier::loop_isolation(false)]
    pub fn symlinks(&self) -> (r: Vec<(String, String)>)
        ensures
            r.deep_view() == symlinks_of(self@.files),
    {
        let ghost f = |p: (Seq<char>, FileView)|
            match p.1 {
                FileView::Symlink(t) => Some((p.0, t)),
                _ => None,
            };
        let mut out: Vec<(String, String)> = Vec::new();
        let mut i: usize = 0;
        proof {
            assert(self@.files.take(0) =~~= Seq::<(Seq<char>, FileView)>::empty());
            assert(out.deep_view() =~~= self@.files.take(0).filter_map(f));
        }
        while i < self.files.len()
            invariant
                i <= self.files.len(),
                out.deep_view() =~~= self@.files.take(i as int).filter_map(f),
            decreases self.files.len() - i,
        {
            let ghost prefix_seq = self@.files.take(i as int);
            let ghost elem = self@.files[i as int];
            proof {
                assert(self@.files.take(i + 1).drop_last() =~~= prefix_seq);
                assert(self@.files.take(i + 1).last() == elem);
            }
            let ghost preout = out.deep_view();
            match &self.files[i].1 {
                PackageFile::Symlink(t) => {
                    let key = self.files[i].0.clone();
                    let tc = t.clone();
                    out.push((key, tc));
                    proof {
                        assert(out.deep_view() =~~= preout.push((elem.0, elem.1->Symlink_0)));
                        assert(out.deep_view() =~~= self@.files.take(i + 1).filter_map(f));
                    }
                },
                _ => {
                    proof {
                        assert(out.deep_view() =~~= self@.files.take(i + 1).filter_map(f));
                    }
                },
            }
            i = i + 1;
        }
        proof {
            assert(self@.files.take(self.files.len() as int) =~~= self@.files);
        }
        out
    }
}

/// The stored target of a symlink: the link text, resolved against the
/// symlink's own in-package directory when relative, then lexically
/// normalized.
pub open spec fn resolved_target_of(parent: Seq<char>, target: Seq<char>) -> Seq<char> {
    if starts_with_char(target, '/') {
        cleaned(target)
    } else {
        cleaned(join_of(parent, target))
    }
}

/// Resolve a symlink's link text against its containing directory.
pub fn resolve_symlink_target(parent: &str, target: &str) -> (r: String)
    ensures
        r@ == resolved_target_of(parent@, target@),
{
    if starts_with_char_exec(target, '/') {
        clean_path(target)
    } else {
        let joined = join_path(parent, target);
        clean_path(joined.as_str())
    }
}

/// A path under the extraction root, re-rooted at `/`: the root prefix
/// stripped and a leading `/` guaranteed.
pub open spec fn rerooted_of(root: Seq<char>, full: Seq<char>) -> Option<Seq<char>> {
    if crate::strutil::token_at(full, root, 0) {
        let rest = full.skip(root.len() as int);
        if starts_with_char(rest, '/') {
            Some(rest)
        } else {
            Some(seq!['/'] + rest)
        }
    } else {
        None
    }
}

/// Strip the extraction root off a walked path and re-root it at `/`;
/// nothing when the path does not lie under the root.
pub fn in_package_path(root: &str, full: &str) -> (r: Option<String>)
    ensures
        match r {
            Some(s) => rerooted_of(root@, full@) == Some(s@),
            None => rerooted_of(root@, full@) is None,
        },
{
    if !crate::strutil::has_token_at(full, root, 0) {
        return None;
    }
    let flen = full.unicode_len();
    let rlen = root.unicode_len();
    let rest = full.substring_char(rlen, flen);
    proof {
        assert(rest@ =~= full@.skip(root@.len() as int));
    }
    if crate::strutil::starts_with_char_exec(rest, '/') {
        Some(rest.to_owned())
    } else {
        proof {
            reveal_strlit("/");
            assert("/"@ =~= seq!['/']);
        }
        let mut s = String::from_str("/");
        s.append(rest);
        Some(s)
    }
}

/// The classification of a non-symlink file from its path and bytes: a
/// skipped extension or a non-ELF file is a plain file; a parsed ELF is
/// an ELF entry; any other parse outcome is an error.
pub open spec fn classify_of(path: Seq<char>, bytes: Seq<u8>) -> Result<FileView, ElfErrorView> {
    if invalid_extension_of(path) {
        Ok(FileView::File)
    } else {
        match elf_result_of(bytes) {
            Ok(e) => Ok(FileView::Elf(e)),
            Err(ElfErrorView::FileTooSmall) => Ok(FileView::File),
            Err(ElfErrorView::NotElfFile) => Ok(FileView::File),
            Err(e) => Err(e),
        }
    }
}

impl PackageFile {
    /// Classify a non-symlink file from its in-package path and bytes.
    pub fn from_file_bytes(path: &str, bytes: &Vec<u8>) -> (r: Result<PackageFile, ElfError>)
        ensures
            match r {
                Ok(f) => classify_of(path@, bytes@) == Ok::<FileView, ElfErrorView>(f@),
                Err(e) => classify_of(path@, bytes@) == Err::<FileView, ElfErrorView>(e@),
            },
    {
        if Elf::is_invalid_extension(path) {
            return Ok(PackageFile::File);
        }
        match Elf::from_bytes(bytes) {
            Ok(e) => Ok(PackageFile::Elf(e)),
            Err(ElfError::FileTooSmall) => Ok(PackageFile::File),
            Err(ElfError::NotElfFile) => Ok(PackageFile::File),
            Err(e) => Err(e),
        }
    }
}

} // verus!
