//! Aggregation of per-ELF results into package-wide totals.

use vstd::prelude::*;
use crate::elf::{Elf, ElfType, ElfView};
use crate::dependency_resolver::{DependencyResolverResult, DepResultView, DependencyKind};
use crate::strutil::contains_str;
use crate::package::clone_string_vec;

verus! {

/// Counts of ELF objects by kind.
#[derive(Debug, Clone, PartialEq, Eq)]
pub struct ElfTotals {
    pub none: usize,
    pub binaries: usize,
    pub shared_libraries: usize,
    pub relocatable: usize,
    pub core: usize,
    pub total: usize,
}

/// The entries of one kind.
pub open spec fn kind_pred(k: ElfType) -> spec_fn((Seq<char>, ElfView)) -> bool {
    |p: (Seq<char>, ElfView)| p.1.kind == k
}

/// How many ELF entries are of one kind.
pub open spec fn count_kind(elfs: Seq<(Seq<char>, ElfView)>, k: ElfType) -> int {
    elfs.filter(kind_pred(k)).len() as int
}

/// The totals record counts each kind, and the total is their sum.
pub open spec fn elf_totals_match(t: ElfTotals, elfs: Seq<(Seq<char>, ElfView)>) -> bool {
    &&& t.none == count_kind(elfs, ElfType::NoneType)
    &&& t.binaries == count_kind(elfs, ElfType::Executable)
    &&& t.shared_libraries == count_kind(elfs, ElfType::SharedObject)
    &&& t.relocatable == count_kind(elfs, ElfType::Relocatable)
    &&& t.core == count_kind(elfs, ElfType::Core)
    &&& t.total == t.none + t.binaries + t.shared_libraries + t.relocatable + t.core
}

/// Every entry is of exactly one kind, so the five counts sum to the
/// number of entries.
pub proof fn lemma_kind_partition(elfs: Seq<(Seq<char>, ElfView)>)
    ensures
        count_kind(elfs, ElfType::NoneType) + count_kind(elfs, ElfType::Executable) + count_kind(
            elfs,
            ElfType::SharedObject,
        ) + count_kind(elfs, ElfType::Relocatable) + count_kind(elfs, ElfType::Core) == elfs.len(),
    decreases elfs.len(),
{
    reveal_with_fuel(Seq::filter, 2);
    if elfs.len() > 0 {
        lemma_kind_partition(elfs.drop_last());
    }
}

impl ElfTotals {
    /// Count the ELF entries of a package by kind.
    #[verifier::loop_isolation(false)]
    pub fn calculate(elfs: &Vec<(String, Elf)>) -> (r: ElfTotals)
        ensures
            elf_totals_match(r, elfs.deep_view()),
    {
        let ghost ev = elfs.deep_view();
        let mut none: usize = 0;
        let mut binaries: usize = 0;
        let mut shared_libraries: usize = 0;
        let mut relocatable: usize = 0;
        let mut core: usize = 0;
        let mut i: usize = 0;
        proof {
            reveal_with_fuel(Seq::filter, 2);
            assert(ev.take(0) =~~= Seq::<(Seq<char>, ElfView)>::empty());
        }
        while i < elfs.len()
            invariant
                i <= elfs.len(),
                none == count_kind(ev.take(i as int), ElfType::NoneType),
                binaries == count_kind(ev.take(i as int), ElfType::Executable),
                shared_libraries == count_kind(ev.take(i as int), ElfType::SharedObject),
                relocatable == count_kind(ev.take(i as int), ElfType::Relocatable),
                core == count_kind(ev.take(i as int), ElfType::Core),
            decreases elfs.len() - i,
        {
            let ghost prefix_seq = ev.take(i as int);
            let ghost elem = ev[i as int];
            proof {
                reveal_with_fuel(Seq::filter, 2);
                assert(ev.take(i + 1).drop_last() =~~= prefix_seq);
                assert(ev.take(i + 1).last() == elem);
                lemma_kind_partition(prefix_seq);
            }
            match elfs[i].1.kind() {
                ElfType::NoneType => {
                    none = none + 1;
                },
                ElfType::Executable => {
                    binaries = binaries + 1;
                },
                ElfType::SharedObject => {
                    shared_libraries = shared_libraries + 1;
                },
                ElfType::Relocatable => {
                    relocatable = relocatable + 1;
                },
                ElfType::Core => {
                    core = core + 1;
                },
            }
            i = i + 1;
        }
        proof {
            assert(ev.take(elfs.len() as int) =~~= ev);
            lemma_kind_partition(ev);
        }
        let total = none + binaries + shared_libraries + relocatable + core;
        ElfTotals { none, binaries, shared_libraries, relocatable, core, total }
    }
}

impl ElfTotals {
    /// Pointwise sum of the totals of two disjoint ELF subsets, the
    /// combine step of aggregation; the total is recomputed from the
    /// parts, so combining is commutative and associative.
    pub fn add(self, other: ElfTotals) -> (r: ElfTotals)
        requires
            self.none + other.none + self.binaries + other.binaries + self.shared_libraries
                + other.shared_libraries + self.relocatable + other.relocatable + self.core
                + other.core <= usize::MAX,
        ensures
            r.none == self.none + other.none,
            r.binaries == self.binaries + other.binaries,
            r.shared_libraries == self.shared_libraries + other.shared_libraries,
            r.relocatable == self.relocatable + other.relocatable,
            r.core == self.core + other.core,
            r.total == r.none + r.binaries + r.shared_libraries + r.relocatable + r.core,
    {
        let none = self.none + other.none;
        let binaries = self.binaries + other.binaries;
        let shared_libraries = self.shared_libraries + other.shared_libraries;
        let relocatable = self.relocatable + other.relocatable;
        let core = self.core + other.core;
        let total = none + binaries + shared_libraries + relocatable + core;
        ElfTotals { none, binaries, shared_libraries, relocatable, core, total }
    }
}

/// Counts of dependency results by status and kind, with unique-name
/// counts.
#[derive(Debug, Clone, PartialEq, Eq)]
pub struct DependencyTotals {
    pub missing: usize,
    pub missing_unique: usize,
    pub found: usize,
    pub found_unique: usize,
    pub error: usize,
    pub system: usize,
    pub package: usize,
    pub unknown: usize,
    pub total: usize,
    pub total_unique: usize,
}

/// All per-ELF results laid out flat, in mapping order.
pub open spec fn flat_results(
    all: Seq<(Seq<char>, Seq<(Seq<char>, DepResultView)>)>,
) -> Seq<(Seq<char>, DepResultView)>
    decreases all.len(),
{
    if all.len() == 0 {
        Seq::<(Seq<char>, DepResultView)>::empty()
    } else {
        flat_results(all.drop_last()) + all.last().1
    }
}

pub open spec fn status_missing() -> spec_fn((Seq<char>, DepResultView)) -> bool {
    |q: (Seq<char>, DepResultView)| q.1.status is Missing
}

pub open spec fn status_found() -> spec_fn((Seq<char>, DepResultView)) -> bool {
    |q: (Seq<char>, DepResultView)| q.1.status is Found
}

pub open spec fn status_error() -> spec_fn((Seq<char>, DepResultView)) -> bool {
    |q: (Seq<char>, DepResultView)| q.1.status is Error
}

pub open spec fn kind_is(k: DependencyKind) -> spec_fn((Seq<char>, DepResultView)) -> bool {
    |q: (Seq<char>, DepResultView)| q.1.kind == k
}

/// The dependency name of one result.
pub open spec fn result_name() -> spec_fn((Seq<char>, DepResultView)) -> Seq<char> {
    |q: (Seq<char>, DepResultView)| q.0
}

/// The distinct names among the results kept by `pred`.
pub open spec fn unique_names(
    flat: Seq<(Seq<char>, DepResultView)>,
    pred: spec_fn((Seq<char>, DepResultView)) -> bool,
) -> Set<Seq<char>> {
    flat.filter(pred).map_values(result_name()).to_set()
}

pub open spec fn any_result() -> spec_fn((Seq<char>, DepResultView)) -> bool {
    |q: (Seq<char>, DepResultView)| true
}

/// The totals record counts results by status and by kind; the total is
/// the status sum; the unique counts are of distinct dependency names.
pub open spec fn dep_totals_match(
    t: DependencyTotals,
    all: Seq<(Seq<char>, Seq<(Seq<char>, DepResultView)>)>,
) -> bool {
    let flat = flat_results(all);
    &&& t.missing == flat.filter(status_missing()).len()
    &&& t.found == flat.filter(status_found()).len()
    &&& t.error == flat.filter(status_error()).len()
    &&& t.system == flat.filter(kind_is(DependencyKind::System)).len()
    &&& t.package == flat.filter(kind_is(DependencyKind::Package)).len()
    &&& t.unknown == flat.filter(kind_is(DependencyKind::Unknown)).len()
    &&& t.total == t.missing + t.found + t.error
    &&& t.total_unique == unique_names(flat, any_result()).len()
    &&& t.missing_unique == unique_names(flat, status_missing()).len()
    &&& t.found_unique == unique_names(flat, status_found()).len()
}

/// The three statuses partition the results.
pub proof fn lemma_status_partition(flat: Seq<(Seq<char>, DepResultView)>)
    ensures
        flat.filter(status_missing()).len() + flat.filter(status_found()).len() + flat.filter(
            status_error(),
        ).len() == flat.len(),
    decreases flat.len(),
{
    reveal_with_fuel(Seq::filter, 2);
    if flat.len() > 0 {
        lemma_status_partition(flat.drop_last());
    }
}

/// The three kinds partition the results.
pub proof fn lemma_kind_partition_dep(flat: Seq<(Seq<char>, DepResultView)>)
    ensures
        flat.filter(kind_is(DependencyKind::System)).len() + flat.filter(
            kind_is(DependencyKind::Package),
        ).len() + flat.filter(kind_is(DependencyKind::Unknown)).len() == flat.len(),
    decreases flat.len(),
{
    reveal_with_fuel(Seq::filter, 2);
    if flat.len() > 0 {
        lemma_kind_partition_dep(flat.drop_last());
    }
}

fn clone_result(r: &DependencyResolverResult) -> (c: DependencyResolverResult)
    ensures
        c@ == r@,
{
    let status = match &r.status {
        crate::dependency_resolver::DependencyStatus::Found => crate::dependency_resolver::DependencyStatus::Found,
        crate::dependency_resolver::DependencyStatus::Missing => crate::dependency_resolver::DependencyStatus::Missing,
        crate::dependency_resolver::DependencyStatus::Error(m) => {
            let m2 = m.clone();
            crate::dependency_resolver::DependencyStatus::Error(m2)
        },
    };
    let path = match &r.path {
        Some(p) => Some(p.clone()),
        None => None,
    };
    let c = DependencyResolverResult {
        status,
        kind: r.kind,
        path,
        searched_paths: clone_string_vec(&r.searched_paths),
    };
    proof {
        assert(c@.searched_paths =~~= r@.searched_paths);
    }
    c
}

/// Lay all per-ELF results out flat, in mapping order.
#[verifier::loop_isolation(false)]
fn flatten(all: &Vec<(String, Vec<(String, DependencyResolverResult)>)>) -> (r: Vec<
    (String, DependencyResolverResult),
>)
    ensures
        r.deep_view() == flat_results(all.deep_view()),
{
    let ghost av = all.deep_view();
    let mut out: Vec<(String, DependencyResolverResult)> = Vec::new();
    let mut i: usize = 0;
    proof {
        assert(av.take(0) =~~= Seq::<(Seq<char>, Seq<(Seq<char>, DepResultView)>)>::empty());
        assert(out.deep_view() =~~= flat_results(av.take(0)));
    }
    while i < all.len()
        invariant
            i <= all.len(),
            out.deep_view() =~~= flat_results(av.take(i as int)),
        decreases all.len() - i,
    {
        let ghost prefix_seq = av.take(i as int);
        let ghost elem = av[i as int];
        proof {
            assert(av.take(i + 1).drop_last() =~~= prefix_seq);
            assert(av.take(i + 1).last() == elem);
        }
        let inner = &all[i].1;
        let mut j: usize = 0;
        proof {
            assert(elem.1.take(0) =~~= Seq::<(Seq<char>, DepResultView)>::empty());
            assert(out.deep_view() =~~= flat_results(prefix_seq) + elem.1.take(0));
        }
        while j < inner.len()
            invariant
                j <= inner.len(),
                i < all.len(),
                inner.deep_view() == elem.1,
                elem == av[i as int],
                out.deep_view() =~~= flat_results(prefix_seq) + elem.1.take(j as int),
            decreases inner.len() - j,
        {
            let ghost preout = out.deep_view();
            let key = inner[j].0.clone();
            let val = clone_result(&inner[j].1);
            out.push((key, val));
            proof {
                assert(out.deep_view() =~~= preout.push(elem.1[j as int]));
                assert(flat_results(prefix_seq) + elem.1.take(j + 1) =~~= (flat_results(prefix_seq)
                    + elem.1.take(j as int)).push(elem.1[j as int]));
            }
            j = j + 1;
        }
        proof {
            assert(elem.1.take(inner.len() as int) =~~= elem.1);
            assert(out.deep_view() =~~= flat_results(av.take(i + 1)));
        }
        i = i + 1;
    }
    proof {
        assert(av.take(all.len() as int) =~~= av);
    }
    out
}

impl DependencyTotals {
    /// Count the results of every ELF by status, kind, and distinct
    /// dependency name.
    #[verifier::loop_isolation(false)]
    #[verifier::rlimit(60)]
    pub fn calculate(all: &Vec<(String, Vec<(String, DependencyResolverResult)>)>) -> (r:
        DependencyTotals)
        ensures
            dep_totals_match(r, all.deep_view()),
    {
        let flat = flatten(all);
        let ghost fl = flat.deep_view();
        let mut missing: usize = 0;
        let mut found: usize = 0;
        let mut error: usize = 0;
        let mut system: usize = 0;
        let mut package: usize = 0;
        let mut unknown: usize = 0;
        let mut all_names: Vec<String> = Vec::new();
        let mut missing_names: Vec<String> = Vec::new();
        let mut found_names: Vec<String> = Vec::new();
        let mut i: usize = 0;
        proof {
            reveal_with_fuel(Seq::filter, 2);
            assert(fl.take(0) =~~= Seq::<(Seq<char>, DepResultView)>::empty());
            assert(fl.take(0).filter(any_result()).map_values(result_name()).to_set()
                =~= all_names.deep_view().to_set());
            assert(fl.take(0).filter(status_missing()).map_values(result_name()).to_set()
                =~= missing_names.deep_view().to_set());
            assert(fl.take(0).filter(status_found()).map_values(result_name()).to_set()
                =~= found_names.deep_view().to_set());
        }
        while i < flat.len()
            invariant
                i <= flat.len(),
                fl == flat.deep_view(),
                missing == fl.take(i as int).filter(status_missing()).len(),
                found == fl.take(i as int).filter(status_found()).len(),
                error == fl.take(i as int).filter(status_error()).len(),
                system == fl.take(i as int).filter(kind_is(DependencyKind::System)).len(),
                package == fl.take(i as int).filter(kind_is(DependencyKind::Package)).len(),
                unknown == fl.take(i as int).filter(kind_is(DependencyKind::Unknown)).len(),
                all_names.deep_view().no_duplicates(),
                missing_names.deep_view().no_duplicates(),
                found_names.deep_view().no_duplicates(),
                all_names.deep_view().to_set() =~= unique_names(fl.take(i as int), any_result()),
                missing_names.deep_view().to_set() =~= unique_names(
                    fl.take(i as int),
                    status_missing(),
                ),
                found_names.deep_view().to_set() =~= unique_names(
                    fl.take(i as int),
                    status_found(),
                ),
            decreases flat.len() - i,
        {
            let ghost prefix_seq = fl.take(i as int);
            let ghost elem = fl[i as int];
            proof {
                reveal_with_fuel(Seq::filter, 2);
                assert(fl.take(i + 1).drop_last() =~~= prefix_seq);
                assert(fl.take(i + 1).last() == elem);
                lemma_status_partition(prefix_seq);
                lemma_kind_partition_dep(prefix_seq);
            }
            let name = &flat[i].0;
            let res = &flat[i].1;
            proof {
                assert(fl.take(i + 1) =~~= prefix_seq.push(elem));
                assert(elem.0 == name@);
            }
            match res.status {
                crate::dependency_resolver::DependencyStatus::Missing => {
                    missing = missing + 1;
                    push_unique(&mut missing_names, name);
                    proof {
                        assert(status_missing()(elem));
                        lemma_filter_map_push_set(prefix_seq, status_missing(), elem);
                        lemma_filter_map_skip_set(prefix_seq, status_found(), elem);
                    }
                },
                crate::dependency_resolver::DependencyStatus::Found => {
                    found = found + 1;
                    push_unique(&mut found_names, name);
                    proof {
                        assert(status_found()(elem));
                        lemma_filter_map_push_set(prefix_seq, status_found(), elem);
                        lemma_filter_map_skip_set(prefix_seq, status_missing(), elem);
                    }
                },
                crate::dependency_resolver::DependencyStatus::Error(_) => {
                    error = error + 1;
                    proof {
                        lemma_filter_map_skip_set(prefix_seq, status_missing(), elem);
                        lemma_filter_map_skip_set(prefix_seq, status_found(), elem);
                    }
                },
            }
            match res.kind {
                DependencyKind::System => {
                    system = system + 1;
                },
                DependencyKind::Package => {
                    package = package + 1;
                },
                DependencyKind::Unknown => {
                    unknown = unknown + 1;
                },
            }
            push_unique(&mut all_names, name);
            proof {
                assert(any_result()(elem));
                lemma_filter_map_push_set(prefix_seq, any_result(), elem);
            }
            i = i + 1;
        }
        proof {
            assert(fl.take(flat.len() as int) =~~= fl);
            lemma_status_partition(fl);
            all_names.deep_view().unique_seq_to_set();
            missing_names.deep_view().unique_seq_to_set();
            found_names.deep_view().unique_seq_to_set();
        }
        let total = missing + found + error;
        let total_unique = all_names.len();
        let missing_unique = missing_names.len();
        let found_unique = found_names.len();
        DependencyTotals {
            missing,
            missing_unique,
            found,
            found_unique,
            error,
            system,
            package,
            unknown,
            total,
            total_unique,
        }
    }
}

impl DependencyTotals {
    /// Pointwise sum of the by-status and by-kind counts of two disjoint
    /// result subsets, the combine step of aggregation; the total is
    /// recomputed from the status counts.  The unique-name counts cannot
    /// be combined pointwise (the subsets may share names) and are left
    /// zero for the whole-package pass to fill in.
    pub fn add(self, other: DependencyTotals) -> (r: DependencyTotals)
        requires
            self.missing + other.missing + self.found + other.found + self.error + other.error
                <= usize::MAX,
            self.system + other.system <= usize::MAX,
            self.package + other.package <= usize::MAX,
            self.unknown + other.unknown <= usize::MAX,
        ensures
            r.missing == self.missing + other.missing,
            r.found == self.found + other.found,
            r.error == self.error + other.error,
            r.system == self.system + other.system,
            r.package == self.package + other.package,
            r.unknown == self.unknown + other.unknown,
            r.total == r.missing + r.found + r.error,
            r.missing_unique == 0 && r.found_unique == 0 && r.total_unique == 0,
    {
        let missing = self.missing + other.missing;
        let found = self.found + other.found;
        let error = self.error + other.error;
        let system = self.system + other.system;
        let package = self.package + other.package;
        let unknown = self.unknown + other.unknown;
        let total = missing + found + error;
        DependencyTotals {
            missing,
            found,
            error,
            system,
            package,
            unknown,
            total,
            total_unique: 0,
            missing_unique: 0,
            found_unique: 0,
        }
    }
}

/// Appending an entry kept by `pred` adds its name to the name set.
proof fn lemma_filter_map_push_set(
    s: Seq<(Seq<char>, DepResultView)>,
    pred: spec_fn((Seq<char>, DepResultView)) -> bool,
    x: (Seq<char>, DepResultView),
)
    requires
        pred(x),
    ensures
        unique_names(s.push(x), pred) == unique_names(s, pred).insert(x.0),
{
    reveal_with_fuel(Seq::filter, 2);
    assert(s.push(x).drop_last() =~~= s);
    assert(s.push(x).filter(pred) == s.filter(pred).push(x));
    let a = s.filter(pred).map_values(result_name());
    let b = s.push(x).filter(pred).map_values(result_name());
    assert(b =~~= a.push(x.0));
    assert(b.to_set() =~= a.to_set().insert(x.0)) by {
        assert forall|y: Seq<char>| b.contains(y) <==> (a.contains(y) || y == x.0) by {
            if b.contains(y) {
                let k = choose|k: int| 0 <= k < b.len() && b[k] == y;
                if k < a.len() {
                    assert(a[k] == y);
                }
            }
            if a.contains(y) {
                let k = choose|k: int| 0 <= k < a.len() && a[k] == y;
                assert(b[k] == y);
            }
            if y == x.0 {
                assert(b[a.len() as int] == y);
            }
        }
    }
}

/// Appending an entry dropped by `pred` leaves the name set alone.
proof fn lemma_filter_map_skip_set(
    s: Seq<(Seq<char>, DepResultView)>,
    pred: spec_fn((Seq<char>, DepResultView)) -> bool,
    x: (Seq<char>, DepResultView),
)
    requires
        !pred(x),
    ensures
        unique_names(s.push(x), pred) == unique_names(s, pred),
{
    reveal_with_fuel(Seq::filter, 2);
    assert(s.push(x).drop_last() =~~= s);
    assert(s.push(x).filter(pred) == s.filter(pred));
}

/// Insert a name unless it is already present.
fn push_unique(v: &mut Vec<String>, name: &String)
    requires
        old(v).deep_view().no_duplicates(),
    ensures
        final(v).deep_view().no_duplicates(),
        final(v).deep_view().to_set() == old(v).deep_view().to_set().insert(name@),
{
    let ghost prev = v.deep_view();
    if !contains_str(v, name.as_str()) {
        v.push(name.clone());
        proof {
            assert(v.deep_view() =~~= prev.push(name@));
            assert(!prev.contains(name@));
            assert forall|x: Seq<char>|
                v.deep_view().contains(x) <==> (prev.contains(x) || x == name@) by {
                if v.deep_view().contains(x) {
                    let k = choose|k: int|
                        0 <= k < v.deep_view().len() && v.deep_view()[k] == x;
                    if k < prev.len() {
                        assert(prev[k] == x);
                    }
                }
                if prev.contains(x) {
                    let k = choose|k: int| 0 <= k < prev.len() && prev[k] == x;
                    assert(v.deep_view()[k] == x);
                }
                if x == name@ {
                    assert(v.deep_view()[prev.len() as int] == x);
                }
            }
            assert(v.deep_view().to_set() =~= prev.to_set().insert(name@));
        }
    } else {
        proof {
            assert(prev.contains(name@));
            assert(v.deep_view().to_set() =~= prev.to_set().insert(name@));
        }
    }
}

/// The package-wide totals: file count, ELF counts, dependency counts.
#[derive(Debug, Clone, PartialEq, Eq)]
pub struct ReportTotals {
    pub files: usize,
    pub elfs: ElfTotals,
    pub dependencies: DependencyTotals,
}

impl ReportTotals {
    /// Aggregate the totals of one analysis.
    pub fn new(
        files_len: usize,
        elfs: &Vec<(String, Elf)>,
        dependencies: &Vec<(String, Vec<(String, DependencyResolverResult)>)>,
    ) -> (r: ReportTotals)
        ensures
            r.files == files_len,
            elf_totals_match(r.elfs, elfs.deep_view()),
            dep_totals_match(r.dependencies, dependencies.deep_view()),
    {
        ReportTotals {
            files: files_len,
            elfs: ElfTotals::calculate(elfs),
            dependencies: DependencyTotals::calculate(dependencies),
        }
    }
}

} // verus!
