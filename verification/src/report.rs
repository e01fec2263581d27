//! The analysis report: per-dependency outcomes, offender records, and
//! totals, with the final pass/fail decision.

use vstd::prelude::*;
use crate::elf::{Elf, ElfView};
use crate::package::{Package, FilesView, elfs_of};
use crate::dependency_resolver::{
    DependencyResolverResult, DepResultView, dependencies, all_results_of,
};
use crate::errors::{ReportError, ReportErrorView, scan_for_errors, scan_errors_of};
use crate::symlink_resolver::SymlinkResolver;
use crate::system_dependencies::SystemDependencies;
use crate::totals::{ReportTotals, elf_totals_match, dep_totals_match};

verus! {

/// The assembled report of one analysis.
#[derive(Debug)]
pub struct Report {
    pub package: String,
    pub totals: ReportTotals,
    pub errors: Vec<ReportError>,
    pub dependencies: Vec<(String, Vec<(String, DependencyResolverResult)>)>,
    pub files: Vec<(String, Elf)>,
}

/// Mathematical model of a report.
#[verifier::ext_equal]
pub struct ReportView {
    pub package: Seq<char>,
    pub totals: ReportTotals,
    pub errors: Seq<ReportErrorView>,
    pub dependencies: Seq<(Seq<char>, Seq<(Seq<char>, DepResultView)>)>,
    pub files: Seq<(Seq<char>, ElfView)>,
}

impl View for Report {
    type V = ReportView;

    open spec fn view(&self) -> ReportView {
        ReportView {
            package: self.package@,
            totals: self.totals,
            errors: self.errors.deep_view(),
            dependencies: self.dependencies.deep_view(),
            files: self.files.deep_view(),
        }
    }
}

/// What a correctly assembled report holds, given the package path, the
/// file mapping, and the System Dependency Set.
pub open spec fn report_matches(
    r: ReportView,
    path: Seq<char>,
    files: FilesView,
    sys: Set<Seq<char>>,
) -> bool {
    &&& r.package == path
    &&& r.errors == scan_errors_of(files, sys)
    &&& r.dependencies == all_results_of(files, sys)
    &&& r.files == elfs_of(files)
    &&& r.totals.files == files.len()
    &&& elf_totals_match(r.totals.elfs, elfs_of(files))
    &&& dep_totals_match(r.totals.dependencies, all_results_of(files, sys))
}

impl Report {
    /// Analyze a package against a System Dependency Set: resolve its
    /// symlinks, resolve every ELF's dependencies, scan for shipped
    /// system dependencies, and aggregate the totals.
    pub fn new(package: &Package, system_dependencies: &SystemDependencies) -> (r: Report)
        requires
            package.wf(),
        ensures
            report_matches(r@, package@.path, package@.files, system_dependencies.set_model()),
    {
        let resolver = SymlinkResolver::new(package);
        let deps = dependencies(package, &resolver, system_dependencies);
        let errors = scan_for_errors(package, &resolver, system_dependencies);
        let elfs = package.elfs();
        let totals = ReportTotals::new(package.files().len(), &elfs, &deps);
        let path = package.path().clone();
        Report { package: path, totals, errors, dependencies: deps, files: elfs }
    }
}

/// Determinism: the contract pins every part of the report, so any two
/// reports assembled from the same package path, the same file mapping,
/// and the same System Dependency Set are equal in every field the
/// analysis defines.
pub proof fn lemma_report_deterministic(
    r1: ReportView,
    r2: ReportView,
    path: Seq<char>,
    files: FilesView,
    sys: Set<Seq<char>>,
)
    requires
        report_matches(r1, path, files, sys),
        report_matches(r2, path, files, sys),
    ensures
        r1 == r2,
{
    assert(r1.totals.elfs == r2.totals.elfs);
    assert(r1.totals.dependencies == r2.totals.dependencies);
    assert(r1.totals == r2.totals);
    assert(r1 =~~= r2);
}

/// Why a report is rejected.
#[derive(Debug, Clone, PartialEq, Eq)]
pub enum ReportRejection {
    ErrorDependencies { count: usize },
    MissingDependencies { count: usize },
}

/// The final decision: a report with any error result fails; otherwise
/// one with any missing dependency fails; otherwise it passes.
pub fn validate_report(report: &Report) -> (r: Result<(), ReportRejection>)
    ensures
        report.totals.dependencies.error > 0 ==> r == Err::<(), ReportRejection>(
            ReportRejection::ErrorDependencies { count: report.totals.dependencies.error },
        ),
        report.totals.dependencies.error == 0 && report.totals.dependencies.missing > 0 ==> r
            == Err::<(), ReportRejection>(
            ReportRejection::MissingDependencies { count: report.totals.dependencies.missing },
        ),
        report.totals.dependencies.error == 0 && report.totals.dependencies.missing == 0 ==> r
            == Ok::<(), ReportRejection>(()),
{
    if report.totals.dependencies.error > 0 {
        Err(ReportRejection::ErrorDependencies { count: report.totals.dependencies.error })
    } else if report.totals.dependencies.missing > 0 {
        Err(ReportRejection::MissingDependencies { count: report.totals.dependencies.missing })
    } else {
        Ok(())
    }
}

/// The names a result marks missing.
pub open spec fn missing_name_entry() -> spec_fn((Seq<char>, DepResultView)) -> Option<Seq<char>> {
    |q: (Seq<char>, DepResultView)|
        if q.1.status is Missing {
            Some(q.0)
        } else {
            None
        }
}

/// The missing names of one ELF's results, in order.
pub open spec fn missing_in(results: Seq<(Seq<char>, DepResultView)>) -> Seq<Seq<char>> {
    results.filter_map(missing_name_entry())
}

/// The map from an ELF's results to its missing-dependency record.
pub open spec fn missing_map_entry() -> spec_fn(
    (Seq<char>, Seq<(Seq<char>, DepResultView)>),
) -> Option<(Seq<char>, Seq<Seq<char>>)> {
    |pe: (Seq<char>, Seq<(Seq<char>, DepResultView)>)|
        if missing_in(pe.1).len() > 0 {
            Some((pe.0, missing_in(pe.1)))
        } else {
            None
        }
}

/// Every ELF that misses dependencies, with the missing names, in
/// mapping order.
pub open spec fn missing_deps_of(
    all: Seq<(Seq<char>, Seq<(Seq<char>, DepResultView)>)>,
) -> Seq<(Seq<char>, Seq<Seq<char>>)> {
    all.filter_map(missing_map_entry())
}

/// Collect, for each ELF with missing dependencies, the missing names.
#[verifier::loop_isolation(false)]
pub fn missing_dependencies(report: &Report) -> (r: Vec<(String, Vec<String>)>)
    ensures
        r.deep_view() == missing_deps_of(report.dependencies.deep_view()),
{
    let ghost av = report.dependencies.deep_view();
    let mut out: Vec<(String, Vec<String>)> = Vec::new();
    let mut i: usize = 0;
    proof {
        assert(av.take(0) =~~= Seq::<(Seq<char>, Seq<(Seq<char>, DepResultView)>)>::empty());
        assert(out.deep_view() =~~= av.take(0).filter_map(missing_map_entry()));
    }
    while i < report.dependencies.len()
        invariant
            i <= report.dependencies.len(),
            out.deep_view() =~~= av.take(i as int).filter_map(missing_map_entry()),
        decreases report.dependencies.len() - i,
    {
        let ghost prefix_seq = av.take(i as int);
        let ghost elem = av[i as int];
        proof {
            assert(av.take(i + 1).drop_last() =~~= prefix_seq);
            assert(av.take(i + 1).last() == elem);
        }
        let inner = &report.dependencies[i].1;
        let mut names: Vec<String> = Vec::new();
        let mut j: usize = 0;
        proof {
            assert(elem.1.take(0) =~~= Seq::<(Seq<char>, DepResultView)>::empty());
            assert(names.deep_view() =~~= missing_in(elem.1.take(0)));
        }
        while j < inner.len()
            invariant
                j <= inner.len(),
                i < report.dependencies.len(),
                inner.deep_view() == elem.1,
                elem == av[i as int],
                names.deep_view() =~~= missing_in(elem.1.take(j as int)),
            decreases inner.len() - j,
        {
            let ghost iprefix = elem.1.take(j as int);
            let ghost ielem = elem.1[j as int];
            proof {
                assert(elem.1.take(j + 1).drop_last() =~~= iprefix);
                assert(elem.1.take(j + 1).last() == ielem);
            }
            let ghost prenames = names.deep_view();
            match inner[j].1.status {
                crate::dependency_resolver::DependencyStatus::Missing => {
                    names.push(inner[j].0.clone());
                    proof {
                        assert(names.deep_view() =~~= prenames.push(ielem.0));
                        assert(names.deep_view() =~~= missing_in(elem.1.take(j + 1)));
                    }
                },
                _ => {
                    proof {
                        assert(names.deep_view() =~~= missing_in(elem.1.take(j + 1)));
                    }
                },
            }
            j = j + 1;
        }
        proof {
            assert(elem.1.take(inner.len() as int) =~~= elem.1);
            assert(names.deep_view() =~~= missing_in(elem.1));
        }
        let ghost preout = out.deep_view();
        if names.len() > 0 {
            let key = report.dependencies[i].0.clone();
            out.push((key, names));
            proof {
                assert(out.deep_view() =~~= preout.push((elem.0, missing_in(elem.1))));
                assert(out.deep_view() =~~= av.take(i + 1).filter_map(missing_map_entry()));
            }
        } else {
            proof {
                assert(missing_in(elem.1).len() == 0);
                assert(out.deep_view() =~~= av.take(i + 1).filter_map(missing_map_entry()));
            }
        }
        i = i + 1;
    }
    proof {
        assert(av.take(report.dependencies.len() as int) =~~= av);
    }
    out
}

} // verus!
