//! The error scanner: package files whose basename collides with a
//! declared system dependency.

use vstd::prelude::*;
use vstd::string::StringExecFns;
use crate::package::{
    Package, FileView, FilesView, lookup, unique_keys, lemma_lookup_unique,
};
use crate::strutil::{base_name_of, base_name, str_eq, contains_str};
use crate::symlink_resolver::{SymlinkResolver, SymlinkResolutionResult, resolve_of};
use crate::system_dependencies::SystemDependencies;
use crate::dependency_resolver::{dedup_names, lemma_dedup_contains};

verus! {

/// A declared system dependency is shipped inside the package, at the
/// listed paths.
#[derive(Debug, Clone, PartialEq, Eq)]
pub enum ReportError {
    SystemDependencyFoundInPackage { dependency: String, paths: Vec<String> },
}

/// Mathematical model of a report error.
pub struct ReportErrorView {
    pub dependency: Seq<char>,
    pub paths: Seq<Seq<char>>,
}

impl View for ReportError {
    type V = ReportErrorView;

    open spec fn view(&self) -> ReportErrorView {
        match self {
            ReportError::SystemDependencyFoundInPackage { dependency, paths } => ReportErrorView {
                dependency: dependency@,
                paths: paths.deep_view(),
            },
        }
    }
}

impl DeepView for ReportError {
    type V = ReportErrorView;

    open spec fn deep_view(&self) -> ReportErrorView {
        self@
    }
}

/// A package entry offends when its basename is a declared system
/// dependency — unless it is a symlink whose chain leaves the package,
/// which merely links to the host's library.
pub open spec fn is_offender(files: FilesView, sys: Set<Seq<char>>, p: (Seq<char>, FileView)) -> bool {
    &&& sys.contains(base_name_of(p.0))
    &&& match p.1 {
        FileView::Symlink(t) => !(resolve_of(files, p.0, t) is NotFound),
        _ => true,
    }
}

/// The map from a file entry to its offender record (basename, path).
pub open spec fn offender_entry(files: FilesView, sys: Set<Seq<char>>) -> spec_fn(
    (Seq<char>, FileView),
) -> Option<(Seq<char>, Seq<char>)> {
    |p: (Seq<char>, FileView)|
        if is_offender(files, sys, p) {
            Some((base_name_of(p.0), p.0))
        } else {
            None
        }
}

/// All offending (basename, path) records, in mapping order.
pub open spec fn offender_pairs(files: FilesView, sys: Set<Seq<char>>) -> Seq<
    (Seq<char>, Seq<char>),
> {
    files.filter_map(offender_entry(files, sys))
}

/// The basename of an offender record.
pub open spec fn pair_name() -> spec_fn((Seq<char>, Seq<char>)) -> Seq<char> {
    |q: (Seq<char>, Seq<char>)| q.0
}

/// The path of a record, kept when its basename is `name`.
pub open spec fn path_entry(name: Seq<char>) -> spec_fn((Seq<char>, Seq<char>)) -> Option<
    Seq<char>,
> {
    |q: (Seq<char>, Seq<char>)|
        if q.0 == name {
            Some(q.1)
        } else {
            None
        }
}

/// All offending paths of one basename, in mapping order.
pub open spec fn paths_for(pairs: Seq<(Seq<char>, Seq<char>)>, name: Seq<char>) -> Seq<Seq<char>> {
    pairs.filter_map(path_entry(name))
}

/// The bucket of one basename.
pub open spec fn group_entry(pairs: Seq<(Seq<char>, Seq<char>)>) -> spec_fn(Seq<char>) -> ReportErrorView {
    |n: Seq<char>| ReportErrorView { dependency: n, paths: paths_for(pairs, n) }
}

/// What the scanner reports: one record per offending basename, in order
/// of first appearance, with that basename's paths in mapping order.
pub open spec fn scan_errors_of(files: FilesView, sys: Set<Seq<char>>) -> Seq<ReportErrorView> {
    let pairs = offender_pairs(files, sys);
    dedup_names(pairs.map_values(pair_name())).map_values(group_entry(pairs))
}

/// Scan the package: group every shipped file whose basename is a
/// declared system dependency by that basename, leaving out symlinks
/// whose chains leave the package.
#[verifier::loop_isolation(false)]
pub fn scan_for_errors(
    package: &Package,
    resolver: &SymlinkResolver,
    sys: &SystemDependencies,
) -> (r: Vec<ReportError>)
    requires
        package.wf(),
        resolver.wf(),
        resolver.files_model() == package@.files,
    ensures
        r.deep_view() == scan_errors_of(package@.files, sys.set_model()),
{
    let ghost fv = package@.files;
    let ghost sysv = sys.set_model();
    let ghost f = offender_entry(fv, sysv);
    let files = package.files();
    let mut pairs: Vec<(String, String)> = Vec::new();
    let mut i: usize = 0;
    proof {
        assert(fv.take(0) =~~= Seq::<(Seq<char>, FileView)>::empty());
        assert(pairs.deep_view() =~~= fv.take(0).filter_map(f));
    }
    while i < files.len()
        invariant
            i <= files.len(),
            pairs.deep_view() =~~= fv.take(i as int).filter_map(f),
        decreases files.len() - i,
    {
        let ghost prefix_seq = fv.take(i as int);
        let ghost elem = fv[i as int];
        proof {
            assert(fv.take(i + 1).drop_last() =~~= prefix_seq);
            assert(fv.take(i + 1).last() == elem);
            lemma_lookup_unique(fv, i as int);
        }
        let ghost prepairs = pairs.deep_view();
        let key = &files[i].0;
        let name = base_name(key.as_str());
        let mut offending = sys.contains(name.as_str());
        if offending {
            match resolver.resolve(key.as_str()) {
                Some(SymlinkResolutionResult::NotFound(_)) => {
                    offending = false;
                },
                _ => {},
            }
        }
        proof {
            assert(offending == is_offender(fv, sysv, elem));
        }
        if offending {
            pairs.push((name, key.clone()));
            proof {
                assert(pairs.deep_view() =~~= prepairs.push((base_name_of(elem.0), elem.0)));
                assert(pairs.deep_view() =~~= fv.take(i + 1).filter_map(f));
            }
        } else {
            proof {
                assert(pairs.deep_view() =~~= fv.take(i + 1).filter_map(f));
            }
        }
        i = i + 1;
    }
    proof {
        assert(fv.take(files.len() as int) =~~= fv);
    }
    let ghost pairsv = pairs.deep_view();
    let mut names: Vec<String> = Vec::new();
    let mut out: Vec<ReportError> = Vec::new();
    let mut i2: usize = 0;
    proof {
        assert(pairsv.take(0) =~~= Seq::<(Seq<char>, Seq<char>)>::empty());
        assert(pairsv.take(0).map_values(pair_name()) =~~= Seq::<Seq<char>>::empty());
        assert(names.deep_view() =~~= dedup_names(pairsv.take(0).map_values(pair_name())));
        assert(out.deep_view() =~~= dedup_names(pairsv.take(0).map_values(pair_name())).map_values(
            group_entry(pairsv),
        ));
    }
    while i2 < pairs.len()
        invariant
            i2 <= pairs.len(),
            pairsv == pairs.deep_view(),
            names.deep_view() =~~= dedup_names(pairsv.take(i2 as int).map_values(pair_name())),
            out.deep_view() =~~= dedup_names(
                pairsv.take(i2 as int).map_values(pair_name()),
            ).map_values(group_entry(pairsv)),
        decreases pairs.len() - i2,
    {
        let ghost nprefix = pairsv.take(i2 as int).map_values(pair_name());
        let ghost nelem = pairsv[i2 as int].0;
        proof {
            assert(pairsv.take(i2 + 1).map_values(pair_name()) =~~= nprefix.push(nelem)) by {
                assert(pairsv.take(i2 + 1).map_values(pair_name()).len() == i2 + 1);
            }
            assert(nprefix.push(nelem).drop_last() =~~= nprefix);
            assert(nprefix.push(nelem).last() == nelem);
        }
        let name = &pairs[i2].0;
        if !contains_str(&names, name.as_str()) {
            proof {
                assert(!names.deep_view().contains(nelem));
                lemma_dedup_contains(nprefix, nelem);
                assert(!nprefix.contains(nelem));
            }
            // collect every path recorded for this basename
            let ghost pf = path_entry(nelem);
            let mut ps: Vec<String> = Vec::new();
            let mut j: usize = 0;
            proof {
                assert(pairsv.take(0) =~~= Seq::<(Seq<char>, Seq<char>)>::empty());
                assert(ps.deep_view() =~~= pairsv.take(0).filter_map(pf));
            }
            while j < pairs.len()
                invariant
                    j <= pairs.len(),
                    pairsv == pairs.deep_view(),
                    nelem == pairsv[i2 as int].0,
                    i2 < pairs.len(),
                    ps.deep_view() =~~= pairsv.take(j as int).filter_map(pf),
                decreases pairs.len() - j,
            {
                let ghost pprefix = pairsv.take(j as int);
                let ghost pelem = pairsv[j as int];
                proof {
                    assert(pairsv.take(j + 1).drop_last() =~~= pprefix);
                    assert(pairsv.take(j + 1).last() == pelem);
                }
                let ghost preps = ps.deep_view();
                if str_eq(pairs[j].0.as_str(), name.as_str()) {
                    ps.push(pairs[j].1.clone());
                    proof {
                        assert(ps.deep_view() =~~= preps.push(pelem.1));
                        assert(ps.deep_view() =~~= pairsv.take(j + 1).filter_map(pf));
                    }
                } else {
                    proof {
                        assert(ps.deep_view() =~~= pairsv.take(j + 1).filter_map(pf));
                    }
                }
                j = j + 1;
            }
            proof {
                assert(pairsv.take(pairs.len() as int) =~~= pairsv);
                assert(ps.deep_view() =~~= paths_for(pairsv, nelem));
            }
            let ghost prenames = names.deep_view();
            let ghost preout = out.deep_view();
            let name_key = name.clone();
            let name_rec = name.clone();
            names.push(name_key);
            out.push(ReportError::SystemDependencyFoundInPackage {
                dependency: name_rec,
                paths: ps,
            });
            proof {
                assert(names.deep_view() =~~= prenames.push(nelem));
                assert(dedup_names(nprefix.push(nelem)) =~~= prenames.push(nelem));
                assert(out.deep_view() =~~= preout.push(group_entry(pairsv)(nelem)));
                assert(out.deep_view() =~~= dedup_names(nprefix.push(nelem)).map_values(
                    group_entry(pairsv),
                ));
            }
        } else {
            proof {
                assert(names.deep_view().contains(nelem));
                lemma_dedup_contains(nprefix, nelem);
                assert(nprefix.contains(nelem));
                assert(dedup_names(nprefix.push(nelem)) =~~= names.deep_view());
            }
        }
        i2 = i2 + 1;
    }
    proof {
        assert(pairsv.take(pairs.len() as int) =~~= pairsv);
    }
    out
}

/// The offender message, as written to reports: each path quoted, the
/// list bracketed.
pub open spec fn quoted_join(paths: Seq<Seq<char>>) -> Seq<char>
    decreases paths.len(),
{
    if paths.len() == 0 {
        Seq::<char>::empty()
    } else if paths.len() == 1 {
        "\""@ + paths[0] + "\""@
    } else {
        quoted_join(paths.drop_last()) + ", \""@ + paths.last() + "\""@
    }
}

/// The text of a report error.
pub open spec fn report_error_msg(e: ReportErrorView) -> Seq<char> {
    "System dependency "@ + e.dependency + ": Found in package at path(s): ["@ + quoted_join(
        e.paths,
    ) + "]"@
}

impl ReportError {
    /// Render the error as one line of text.
    #[verifier::loop_isolation(false)]
    pub fn message(&self) -> (r: String)
        ensures
            r@ == report_error_msg(self@),
    {
        match self {
            ReportError::SystemDependencyFoundInPackage { dependency, paths } => {
                let mut m = String::from_str("System dependency ");
                m.append(dependency.as_str());
                m.append(": Found in package at path(s): [");
                let ghost base = m@;
                let mut k: usize = 0;
                while k < paths.len()
                    invariant
                        k <= paths.len(),
                        base == "System dependency "@ + dependency@
                            + ": Found in package at path(s): ["@,
                        m@ == base + quoted_join(paths.deep_view().take(k as int)),
                    decreases paths.len() - k,
                {
                    let ghost qprefix = paths.deep_view().take(k as int);
                    proof {
                        assert(paths.deep_view().take(k + 1).drop_last() =~~= qprefix);
                        assert(paths.deep_view().take(k + 1).last() == paths.deep_view()[k as int]);
                    }
                    if k > 0 {
                        m.append(", \"");
                    } else {
                        m.append("\"");
                    }
                    m.append(paths[k].as_str());
                    m.append("\"");
                    proof {
                        if k == 0 {
                            assert(quoted_join(paths.deep_view().take(1)) =~= "\""@
                                + paths.deep_view()[0] + "\""@);
                            assert(m@ =~= base + quoted_join(paths.deep_view().take(k + 1)));
                        } else {
                            assert(quoted_join(paths.deep_view().take(k + 1)) =~= quoted_join(
                                qprefix,
                            ) + ", \""@ + paths.deep_view()[k as int] + "\""@);
                            assert(m@ =~= base + quoted_join(paths.deep_view().take(k + 1)));
                        }
                    }
                    k = k + 1;
                }
                proof {
                    assert(paths.deep_view().take(paths.len() as int) =~~= paths.deep_view());
                }
                m.append("]");
                proof {
                    assert(m@ =~= report_error_msg(self@));
                }
                m
            },
        }
    }
}

/// Scanner-symlink exemption: a symlink whose chain leaves the package
/// is reported at no bucket, even when its basename is a declared system
/// dependency.
pub proof fn lemma_scanner_symlink_exemption(
    files: FilesView,
    sys: Set<Seq<char>>,
    p: Seq<char>,
    t: Seq<char>,
)
    requires
        unique_keys(files),
        lookup(files, p) == Some(FileView::Symlink(t)),
        resolve_of(files, p, t) is NotFound,
    ensures
        forall|k: int|
            0 <= k < scan_errors_of(files, sys).len() ==> !scan_errors_of(files, sys)[k].paths.contains(
                p,
            ),
{
    let pairs = offender_pairs(files, sys);
    let errs = scan_errors_of(files, sys);
    assert forall|k: int| 0 <= k < errs.len() implies !errs[k].paths.contains(p) by {
        if errs[k].paths.contains(p) {
            let names = dedup_names(pairs.map_values(pair_name()));
            assert(errs[k] == group_entry(pairs)(names[k]));
            let n = names[k];
            assert(paths_for(pairs, n).contains(p));
            Seq::lemma_filter_map_contains(pairs, path_entry(n), p);
            let q = choose|q: (Seq<char>, Seq<char>)| #[trigger]
                pairs.contains(q) && path_entry(n)(q) == Some(p);
            assert(q.1 == p);
            Seq::lemma_filter_map_contains(files, offender_entry(files, sys), q);
            let e = choose|e: (Seq<char>, FileView)| #[trigger]
                files.contains(e) && offender_entry(files, sys)(e) == Some(q);
            assert(e.0 == p);
            let j = choose|j: int| 0 <= j < files.len() && files[j] == e;
            lemma_lookup_unique(files, j);
            assert(e.1 == FileView::Symlink(t));
            assert(!is_offender(files, sys, e));
            assert(false);
        }
    }
}

} // verus!
