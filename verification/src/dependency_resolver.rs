//! Per-dependency resolution: for each ELF and each name it needs,
//! decide whether the dependency is found in the package, delegated to
//! the host system, missing, or in error.

use vstd::prelude::*;
use vstd::string::StringExecFns;
use crate::elf::{Elf, ElfView, normalize_entry, normalize_paths_of, chosen_search_list};
use crate::package::{Package, PackageFile, FileView, FilesView, lookup, elfs_of};
use crate::strutil::{
    base_name_of, base_name, parent_dir_of, parent_dir, join_of, join_path, contains_str,
};
use crate::symlink_resolver::{
    SymlinkResolver, SymlinkResolutionResult, SymResView, symlink_resolution,
};
use crate::system_dependencies::SystemDependencies;

verus! {

/// Status of one dependency after resolution.
#[derive(Debug, Clone, PartialEq, Eq)]
pub enum DependencyStatus {
    Found,
    Missing,
    Error(String),
}

/// Mathematical model of a dependency status.
pub enum DepStatusView {
    Found,
    Missing,
    Error(Seq<char>),
}

impl View for DependencyStatus {
    type V = DepStatusView;

    open spec fn view(&self) -> DepStatusView {
        match self {
            DependencyStatus::Found => DepStatusView::Found,
            DependencyStatus::Missing => DepStatusView::Missing,
            DependencyStatus::Error(m) => DepStatusView::Error(m@),
        }
    }
}

/// Who satisfies a dependency: the host system, the package itself, or
/// nobody known.
#[derive(Debug, Clone, Copy, PartialEq, Eq, Structural)]
pub enum DependencyKind {
    System,
    Package,
    Unknown,
}

/// The full outcome for one (ELF, needed name) pair.
#[derive(Debug, Clone, PartialEq, Eq)]
pub struct DependencyResolverResult {
    pub status: DependencyStatus,
    pub kind: DependencyKind,
    pub path: Option<String>,
    pub searched_paths: Vec<String>,
}

/// Mathematical model of a resolution outcome.
pub struct DepResultView {
    pub status: DepStatusView,
    pub kind: DependencyKind,
    pub path: Option<Seq<char>>,
    pub searched_paths: Seq<Seq<char>>,
}

impl View for DependencyResolverResult {
    type V = DepResultView;

    open spec fn view(&self) -> DepResultView {
        DepResultView {
            status: self.status@,
            kind: self.kind,
            path: match self.path {
                Some(ref p) => Some(p@),
                None => None,
            },
            searched_paths: self.searched_paths.deep_view(),
        }
    }
}

impl DeepView for DependencyResolverResult {
    type V = DepResultView;

    open spec fn deep_view(&self) -> DepResultView {
        self@
    }
}

impl DependencyResolverResult {
    /// Assemble an outcome from its parts.
    pub fn new(
        status: DependencyStatus,
        kind: DependencyKind,
        searched_paths: Vec<String>,
        path: Option<String>,
    ) -> (r: DependencyResolverResult)
        ensures
            r@.status == status@,
            r@.kind == kind,
            r@.path == (match path {
                Some(ref p) => Some::<Seq<char>>(p@),
                None => None::<Seq<char>>,
            }),
            r@.searched_paths == searched_paths.deep_view(),
    {
        DependencyResolverResult { status, kind, path, searched_paths }
    }
}

/// The diagnostic for a candidate that runs into a symlink cycle.
pub open spec fn cycle_msg(c: Seq<char>) -> Seq<char> {
    "Symlink cycle detected: "@ + c
}

/// The diagnostic for a dependency that is in the package but not ELF.
pub open spec fn not_elf_msg(t: Seq<char>) -> Seq<char> {
    "Found in package, but not an ELF file: "@ + t
}

/// Looking a terminal path up in the package: an ELF is found; any other
/// present file is an error; an absent one leaves the search open.
pub open spec fn package_probe(files: FilesView, t: Seq<char>) -> (
    DepStatusView,
    DependencyKind,
    Option<Seq<char>>,
) {
    match lookup(files, t) {
        Some(FileView::Elf(_)) => (DepStatusView::Found, DependencyKind::Package, Some(t)),
        Some(_) => (
            DepStatusView::Error(not_elf_msg(t)),
            DependencyKind::Package,
            Some(t),
        ),
        None => (DepStatusView::Missing, DependencyKind::Unknown, None),
    }
}

/// Looking a path that leaves the package up in the System Dependency
/// Set, by its basename.
pub open spec fn system_probe(sys: Set<Seq<char>>, t: Seq<char>) -> (
    DepStatusView,
    DependencyKind,
    Option<Seq<char>>,
) {
    if sys.contains(base_name_of(t)) {
        (DepStatusView::Found, DependencyKind::System, Some(t))
    } else {
        (DepStatusView::Missing, DependencyKind::Unknown, Some(t))
    }
}

/// What one candidate path `c` yields: through the symlink resolver when
/// `c` is a symlink, else a direct package lookup.
pub open spec fn probe_candidate(files: FilesView, sys: Set<Seq<char>>, c: Seq<char>) -> (
    DepStatusView,
    DependencyKind,
    Option<Seq<char>>,
) {
    match symlink_resolution(files, c) {
        None => package_probe(files, c),
        Some(SymResView::NotFound(t)) => system_probe(sys, t),
        Some(SymResView::Found(t)) => package_probe(files, t),
        Some(SymResView::CycleDetected) => (
            DepStatusView::Error(cycle_msg(c)),
            DependencyKind::Unknown,
            None,
        ),
    }
}

/// The search over the directories from index `i` on, in declaration
/// order: the first candidate that is found or in error decides; if all
/// remain open the dependency is missing.
pub open spec fn search_loop(
    files: FilesView,
    sys: Set<Seq<char>>,
    search_paths: Seq<Seq<char>>,
    dep: Seq<char>,
    i: int,
) -> DepResultView
    decreases search_paths.len() - i,
    when 0 <= i <= search_paths.len()
{
    if i == search_paths.len() {
        DepResultView {
            status: DepStatusView::Missing,
            kind: DependencyKind::Unknown,
            path: None,
            searched_paths: search_paths,
        }
    } else {
        let c = join_of(search_paths[i], dep);
        let probe = probe_candidate(files, sys, c);
        match probe.0 {
            DepStatusView::Missing => search_loop(files, sys, search_paths, dep, i + 1),
            _ => DepResultView {
                status: probe.0,
                kind: probe.1,
                path: probe.2,
                searched_paths: search_paths,
            },
        }
    }
}

/// The decision for one needed name of one ELF: a name in the System
/// Dependency Set is the system's at once; otherwise the normalized
/// search paths are consulted in declaration order.
pub open spec fn resolve_dependency_of(
    files: FilesView,
    sys: Set<Seq<char>>,
    elf_path: Seq<char>,
    e: ElfView,
    dep: Seq<char>,
) -> DepResultView {
    if sys.contains(dep) {
        DepResultView {
            status: DepStatusView::Found,
            kind: DependencyKind::System,
            path: None,
            searched_paths: Seq::<Seq<char>>::empty(),
        }
    } else {
        search_loop(
            files,
            sys,
            normalize_paths_of(e, parent_dir_of(elf_path)),
            dep,
            0,
        )
    }
}

/// Every exit of the search reports the same full list of consulted
/// directories.
pub proof fn lemma_searched_paths_full(
    files: FilesView,
    sys: Set<Seq<char>>,
    search_paths: Seq<Seq<char>>,
    dep: Seq<char>,
    i: int,
)
    requires
        0 <= i <= search_paths.len(),
    ensures
        search_loop(files, sys, search_paths, dep, i).searched_paths == search_paths,
    decreases search_paths.len() - i,
{
    if i < search_paths.len() {
        lemma_searched_paths_full(files, sys, search_paths, dep, i + 1);
    }
}

/// Short-circuit: a name in the System Dependency Set is found as a
/// system dependency at once — no path, no searched paths — whatever the
/// package holds.
pub proof fn lemma_system_short_circuit(
    files: FilesView,
    sys: Set<Seq<char>>,
    elf_path: Seq<char>,
    e: ElfView,
    dep: Seq<char>,
)
    requires
        sys.contains(dep),
    ensures
        resolve_dependency_of(files, sys, elf_path, e, dep) == (DepResultView {
            status: DepStatusView::Found,
            kind: DependencyKind::System,
            path: None::<Seq<char>>,
            searched_paths: Seq::<Seq<char>>::empty(),
        }),
{
}

/// Precedence: when an ELF declares a nonempty `runpath`, the consulted
/// directories are the normalization of `runpath` alone; `rpath` plays
/// no part.
pub proof fn lemma_runpath_precedence(
    files: FilesView,
    sys: Set<Seq<char>>,
    elf_path: Seq<char>,
    e: ElfView,
    dep: Seq<char>,
)
    requires
        !sys.contains(dep),
        e.runpath.len() > 0,
    ensures
        resolve_dependency_of(files, sys, elf_path, e, dep).searched_paths == e.runpath.filter_map(
            normalize_entry(parent_dir_of(elf_path)),
        ),
{
    lemma_searched_paths_full(
        files,
        sys,
        normalize_paths_of(e, parent_dir_of(elf_path)),
        dep,
        0,
    );
}

/// Order preservation: the consulted directories are the chosen list —
/// `runpath`, else `rpath` — in declaration order, with only the
/// non-anchored entries dropped.
pub proof fn lemma_order_preservation(
    files: FilesView,
    sys: Set<Seq<char>>,
    elf_path: Seq<char>,
    e: ElfView,
    dep: Seq<char>,
)
    requires
        !sys.contains(dep),
    ensures
        resolve_dependency_of(files, sys, elf_path, e, dep).searched_paths == chosen_search_list(
            e,
        ).filter_map(normalize_entry(parent_dir_of(elf_path))),
{
    lemma_searched_paths_full(
        files,
        sys,
        normalize_paths_of(e, parent_dir_of(elf_path)),
        dep,
        0,
    );
}

/// Probe one terminal path in the package.
fn resolve_package_dependency(package: &Package, path: &str) -> (r: (
    DependencyStatus,
    DependencyKind,
    Option<String>,
))
    ensures
        ({
            let probe = package_probe(package@.files, path@);
            &&& r.0@ == probe.0
            &&& r.1 == probe.1
            &&& (match r.2 {
                Some(ref p) => probe.2 == Some::<Seq<char>>(p@),
                None => probe.2 is None,
            })
        }),
{
    match package.get(path) {
        Some(PackageFile::Elf(_)) => (
            DependencyStatus::Found,
            DependencyKind::Package,
            Some(path.to_owned()),
        ),
        Some(_) => {
            let mut m = String::from_str("Found in package, but not an ELF file: ");
            m.append(path);
            (DependencyStatus::Error(m), DependencyKind::Package, Some(path.to_owned()))
        },
        None => (DependencyStatus::Missing, DependencyKind::Unknown, None),
    }
}

/// Probe a path that leaves the package against the System Dependency
/// Set.
fn resolve_system_dependency(sys: &SystemDependencies, path: &str) -> (r: (
    DependencyStatus,
    DependencyKind,
    Option<String>,
))
    ensures
        ({
            let probe = system_probe(sys.set_model(), path@);
            &&& r.0@ == probe.0
            &&& r.1 == probe.1
            &&& (match r.2 {
                Some(ref p) => probe.2 == Some::<Seq<char>>(p@),
                None => probe.2 is None,
            })
        }),
{
    let name = base_name(path);
    if sys.contains(name.as_str()) {
        (DependencyStatus::Found, DependencyKind::System, Some(path.to_owned()))
    } else {
        (DependencyStatus::Missing, DependencyKind::Unknown, Some(path.to_owned()))
    }
}

/// Probe one candidate path, going through the symlink resolver.
fn find_dependency(
    package: &Package,
    resolver: &SymlinkResolver,
    sys: &SystemDependencies,
    path: &str,
) -> (r: (DependencyStatus, DependencyKind, Option<String>))
    requires
        resolver.wf(),
        resolver.files_model() == package@.files,
    ensures
        ({
            let probe = probe_candidate(package@.files, sys.set_model(), path@);
            &&& r.0@ == probe.0
            &&& r.1 == probe.1
            &&& (match r.2 {
                Some(ref p) => probe.2 == Some::<Seq<char>>(p@),
                None => probe.2 is None,
            })
        }),
{
    match resolver.resolve(path) {
        Some(SymlinkResolutionResult::NotFound(target)) => {
            let t = target.clone();
            resolve_system_dependency(sys, t.as_str())
        },
        Some(SymlinkResolutionResult::Found(target)) => {
            let t = target.clone();
            resolve_package_dependency(package, t.as_str())
        },
        Some(SymlinkResolutionResult::CycleDetected) => {
            let mut m = String::from_str("Symlink cycle detected: ");
            m.append(path);
            (DependencyStatus::Error(m), DependencyKind::Unknown, None)
        },
        None => resolve_package_dependency(package, path),
    }
}

/// Resolve one needed name of one ELF.
#[verifier::loop_isolation(false)]
pub fn resolve_dependency(
    package: &Package,
    resolver: &SymlinkResolver,
    sys: &SystemDependencies,
    path: &str,
    elf: &Elf,
    dependency: &str,
) -> (r: DependencyResolverResult)
    requires
        resolver.wf(),
        resolver.files_model() == package@.files,
    ensures
        r@ == resolve_dependency_of(
            package@.files,
            sys.set_model(),
            path@,
            elf@,
            dependency@,
        ),
{
    let ghost fv = package@.files;
    let ghost sysv = sys.set_model();
    if sys.contains(dependency) {
        let r = DependencyResolverResult::new(
            DependencyStatus::Found,
            DependencyKind::System,
            Vec::new(),
            None,
        );
        proof {
            assert(r@.searched_paths =~~= Seq::<Seq<char>>::empty());
        }
        return r;
    }
    let origin = parent_dir(path);
    let search_paths = elf.normalize_paths(origin.as_str());
    let ghost spv = search_paths.deep_view();
    let mut i: usize = 0;
    while i < search_paths.len()
        invariant
            i <= search_paths.len(),
            spv == search_paths.deep_view(),
            resolve_dependency_of(fv, sysv, path@, elf@, dependency@) == search_loop(
                fv,
                sysv,
                spv,
                dependency@,
                i as int,
            ),
        decreases search_paths.len() - i,
    {
        let candidate = join_path(search_paths[i].as_str(), dependency);
        let probe = find_dependency(package, resolver, sys, candidate.as_str());
        let (status, kind, found_path) = probe;
        match status {
            DependencyStatus::Missing => {
                i = i + 1;
            },
            _ => {
                let r = DependencyResolverResult::new(status, kind, search_paths, found_path);
                return r;
            },
        }
    }
    let r = DependencyResolverResult::new(
        DependencyStatus::Missing,
        DependencyKind::Unknown,
        search_paths,
        None,
    );
    r
}

/// Names kept at their first occurrence, later repeats dropped.
pub open spec fn dedup_names(names: Seq<Seq<char>>) -> Seq<Seq<char>>
    decreases names.len(),
{
    if names.len() == 0 {
        Seq::<Seq<char>>::empty()
    } else {
        let rest = dedup_names(names.drop_last());
        if names.drop_last().contains(names.last()) {
            rest
        } else {
            rest.push(names.last())
        }
    }
}

/// A name is in the deduplicated list iff it is in the original one.
pub proof fn lemma_dedup_contains(names: Seq<Seq<char>>, x: Seq<char>)
    ensures
        dedup_names(names).contains(x) == names.contains(x),
    decreases names.len(),
{
    if names.len() > 0 {
        lemma_dedup_contains(names.drop_last(), x);
        assert(names.contains(x) <==> (names.drop_last().contains(x) || names.last() == x)) by {
            if names.contains(x) {
                let k = choose|k: int| 0 <= k < names.len() && names[k] == x;
                if k < names.len() - 1 {
                    assert(names.drop_last()[k] == x);
                }
            }
            if names.drop_last().contains(x) {
                let k = choose|k: int|
                    0 <= k < names.drop_last().len() && names.drop_last()[k] == x;
                assert(names[k] == x);
            }
            if names.last() == x {
                assert(names[names.len() - 1] == x);
            }
        }
        let rest = dedup_names(names.drop_last());
        if !names.drop_last().contains(names.last()) {
            assert forall|y: Seq<char>|
                rest.push(names.last()).contains(y) <==> (rest.contains(y) || y
                    == names.last()) by {
                if rest.push(names.last()).contains(y) {
                    let k = choose|k: int|
                        0 <= k < rest.push(names.last()).len() && rest.push(names.last())[k] == y;
                    if k < rest.len() {
                        assert(rest[k] == y);
                    }
                }
                if rest.contains(y) {
                    let k = choose|k: int| 0 <= k < rest.len() && rest[k] == y;
                    assert(rest.push(names.last())[k] == y);
                }
                if y == names.last() {
                    assert(rest.push(names.last())[rest.len() as int] == y);
                }
            }
        }
    }
}

/// The map from a needed name to its labelled outcome.
pub open spec fn dep_entry(
    files: FilesView,
    sys: Set<Seq<char>>,
    elf_path: Seq<char>,
    e: ElfView,
) -> spec_fn(Seq<char>) -> (Seq<char>, DepResultView) {
    |d: Seq<char>| (d, resolve_dependency_of(files, sys, elf_path, e, d))
}

/// The outcomes for one ELF: one entry per distinct needed name, in the
/// order the names first appear.
pub open spec fn elf_results_of(
    files: FilesView,
    sys: Set<Seq<char>>,
    elf_path: Seq<char>,
    e: ElfView,
) -> Seq<(Seq<char>, DepResultView)> {
    dedup_names(e.needed).map_values(dep_entry(files, sys, elf_path, e))
}

/// Resolve every distinct needed name of one ELF, in first-occurrence
/// order.
#[verifier::loop_isolation(false)]
pub fn resolve(
    package: &Package,
    resolver: &SymlinkResolver,
    sys: &SystemDependencies,
    path: &str,
    elf: &Elf,
) -> (r: Vec<(String, DependencyResolverResult)>)
    requires
        resolver.wf(),
        resolver.files_model() == package@.files,
    ensures
        r.deep_view() == elf_results_of(package@.files, sys.set_model(), path@, elf@),
{
    let ghost fv = package@.files;
    let ghost sysv = sys.set_model();
    let ghost g = dep_entry(fv, sysv, path@, elf@);
    let needed = elf.dependencies();
    let mut seen: Vec<String> = Vec::new();
    let mut out: Vec<(String, DependencyResolverResult)> = Vec::new();
    let mut i: usize = 0;
    proof {
        assert(needed.deep_view().take(0) =~~= Seq::<Seq<char>>::empty());
        assert(seen.deep_view() =~~= dedup_names(needed.deep_view().take(0)));
        assert(out.deep_view() =~~= dedup_names(needed.deep_view().take(0)).map_values(g));
    }
    while i < needed.len()
        invariant
            i <= needed.len(),
            seen.deep_view() =~~= dedup_names(needed.deep_view().take(i as int)),
            out.deep_view() =~~= dedup_names(needed.deep_view().take(i as int)).map_values(g),
        decreases needed.len() - i,
    {
        let ghost prefix_seq = needed.deep_view().take(i as int);
        let ghost elem = needed.deep_view()[i as int];
        proof {
            assert(needed.deep_view().take(i + 1).drop_last() =~~= prefix_seq);
            assert(needed.deep_view().take(i + 1).last() == elem);
        }
        let dep = &needed[i];
        if !contains_str(&seen, dep.as_str()) {
            proof {
                assert(!seen.deep_view().contains(elem));
                lemma_dedup_contains(prefix_seq, elem);
                assert(!prefix_seq.contains(elem));
            }
            let res = resolve_dependency(package, resolver, sys, path, elf, dep.as_str());
            let ghost preseen = seen.deep_view();
            let ghost preout = out.deep_view();
            seen.push(dep.clone());
            out.push((dep.clone(), res));
            proof {
                assert(seen.deep_view() =~~= preseen.push(elem));
                assert(out.deep_view() =~~= preout.push(g(elem)));
                assert(dedup_names(needed.deep_view().take(i + 1)) =~~= preseen.push(elem));
                assert(out.deep_view() =~~= dedup_names(needed.deep_view().take(i + 1)).map_values(
                    g,
                ));
            }
        } else {
            proof {
                assert(seen.deep_view().contains(elem));
                lemma_dedup_contains(prefix_seq, elem);
                assert(prefix_seq.contains(elem));
                assert(dedup_names(needed.deep_view().take(i + 1)) =~~= seen.deep_view());
            }
        }
        i = i + 1;
    }
    proof {
        assert(needed.deep_view().take(needed.len() as int) =~~= needed.deep_view());
    }
    out
}

/// The map from an ELF entry to its labelled outcomes.
pub open spec fn result_entry(files: FilesView, sys: Set<Seq<char>>) -> spec_fn(
    (Seq<char>, ElfView),
) -> (Seq<char>, Seq<(Seq<char>, DepResultView)>) {
    |pe: (Seq<char>, ElfView)| (pe.0, elf_results_of(files, sys, pe.0, pe.1))
}

/// The outcomes for every ELF of the package, in mapping order.
pub open spec fn all_results_of(files: FilesView, sys: Set<Seq<char>>) -> Seq<
    (Seq<char>, Seq<(Seq<char>, DepResultView)>),
> {
    elfs_of(files).map_values(result_entry(files, sys))
}

/// Resolve the dependencies of every ELF of the package.
#[verifier::loop_isolation(false)]
pub fn dependencies(
    package: &Package,
    resolver: &SymlinkResolver,
    sys: &SystemDependencies,
) -> (r: Vec<(String, Vec<(String, DependencyResolverResult)>)>)
    requires
        resolver.wf(),
        resolver.files_model() == package@.files,
    ensures
        r.deep_view() == all_results_of(package@.files, sys.set_model()),
{
    let ghost fv = package@.files;
    let ghost sysv = sys.set_model();
    let ghost h = result_entry(fv, sysv);
    let elfs = package.elfs();
    let mut out: Vec<(String, Vec<(String, DependencyResolverResult)>)> = Vec::new();
    let mut i: usize = 0;
    proof {
        assert(elfs_of(fv).take(0) =~~= Seq::<(Seq<char>, ElfView)>::empty());
        assert(out.deep_view() =~~= elfs_of(fv).take(0).map_values(h));
    }
    while i < elfs.len()
        invariant
            i <= elfs.len(),
            elfs.deep_view() == elfs_of(fv),
            out.deep_view() =~~= elfs_of(fv).take(i as int).map_values(h),
        decreases elfs.len() - i,
    {
        let ghost elem = elfs_of(fv)[i as int];
        let results = resolve(package, resolver, sys, elfs[i].0.as_str(), &elfs[i].1);
        let key = elfs[i].0.clone();
        let ghost preout = out.deep_view();
        out.push((key, results));
        proof {
            assert(out.deep_view() =~~= preout.push(h(elem)));
            assert(elfs_of(fv).take(i + 1) =~~= elfs_of(fv).take(i as int).push(elem));
            assert(elfs_of(fv).take(i + 1).map_values(h) =~~= elfs_of(fv).take(
                i as int,
            ).map_values(h).push(h(elem)));
        }
        i = i + 1;
    }
    proof {
        assert(elfs_of(fv).take(elfs_of(fv).len() as int) =~~= elfs_of(fv));
    }
    out
}

} // verus!
