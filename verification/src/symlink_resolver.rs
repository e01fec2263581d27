//! Resolution of every symlink in the package to an in-package terminal
//! file, an out-of-package target, or a detected cycle.

use vstd::prelude::*;
use vstd::seq_lib::seq_to_set_is_finite;
use vstd::set_lib::*;
use crate::package::{
    Package, PackageFile, FileView, FilesView, lookup, unique_keys, lemma_lookup_skip,
    lemma_lookup_some_index, lemma_lookup_unique,
};
use crate::strutil::{str_eq, contains_str, lemma_filter_map_forward};

verus! {

/// Mathematical model of a symlink resolution.
pub enum SymResView {
    NotFound(Seq<char>),
    Found(Seq<char>),
    CycleDetected,
}

/// Where a symlink chain ends: outside the package (with the target kept),
/// at a non-symlink in-package file, or in a cycle.
#[derive(Debug, Clone, PartialEq, Eq)]
pub enum SymlinkResolutionResult {
    NotFound(String),
    Found(String),
    CycleDetected,
}

impl View for SymlinkResolutionResult {
    type V = SymResView;

    open spec fn view(&self) -> SymResView {
        match self {
            SymlinkResolutionResult::NotFound(t) => SymResView::NotFound(t@),
            SymlinkResolutionResult::Found(t) => SymResView::Found(t@),
            SymlinkResolutionResult::CycleDetected => SymResView::CycleDetected,
        }
    }
}

impl DeepView for SymlinkResolutionResult {
    type V = SymResView;

    open spec fn deep_view(&self) -> SymResView {
        self@
    }
}

/// The set of paths present in the file mapping.
pub open spec fn key_set(files: FilesView) -> Set<Seq<char>> {
    files.map_values(|p: (Seq<char>, FileView)| p.0).to_set()
}

pub proof fn lemma_key_set_finite(files: FilesView)
    ensures
        key_set(files).finite(),
{
    broadcast use seq_to_set_is_finite;

}

/// A path that is found is in the key set.
pub proof fn lemma_lookup_in_key_set(files: FilesView, k: Seq<char>)
    requires
        lookup(files, k) is Some,
    ensures
        key_set(files).contains(k),
{
    lemma_lookup_some_index(files, k);
    let i = choose|i: int| 0 <= i < files.len() && files[i].0 == k && files[i].1 == lookup(files, k).unwrap();
    let keys = files.map_values(|p: (Seq<char>, FileView)| p.0);
    assert(keys[i] == k);
    assert(keys.contains(k));
}

/// One walk of a symlink chain: `cur` is the symlink being stepped from,
/// `tgt` its stored target, `visited` the symlinks already stepped from.
/// A revisit is a cycle; a target that is no key leaves the package; a
/// target that is another symlink is followed; any other target is the
/// terminal file.
pub open spec fn chain_resolve(
    files: FilesView,
    cur: Seq<char>,
    tgt: Seq<char>,
    visited: Set<Seq<char>>,
) -> SymResView
    decreases key_set(files).difference(visited).len(),
    when visited.finite() && visited.subset_of(key_set(files)) && key_set(files).contains(cur)
{
    if visited.contains(cur) {
        SymResView::CycleDetected
    } else {
        match lookup(files, tgt) {
            Option::None => SymResView::NotFound(tgt),
            Option::Some(FileView::Symlink(next)) => {
                proof {
                    lemma_key_set_finite(files);
                    lemma_lookup_in_key_set(files, tgt);
                    key_set(files).lemma_set_insert_diff_decreases(visited, cur);
                }
                chain_resolve(files, tgt, next, visited.insert(cur))
            },
            Option::Some(_) => SymResView::Found(tgt),
        }
    }
}

/// The resolution of the symlink at `p` with stored target `t`.
pub open spec fn resolve_of(files: FilesView, p: Seq<char>, t: Seq<char>) -> SymResView {
    chain_resolve(files, p, t, Set::<Seq<char>>::empty())
}

/// The map from a file entry to its recorded resolution, if it is a
/// symlink.
pub open spec fn resolution_entry(files: FilesView) -> spec_fn((Seq<char>, FileView)) -> Option<
    (Seq<char>, SymResView),
> {
    |p: (Seq<char>, FileView)|
        match p.1 {
            FileView::Symlink(t) => Some((p.0, resolve_of(files, p.0, t))),
            _ => None,
        }
}

/// The resolution of every symlink entry, in mapping order.
pub open spec fn resolutions_of(files: FilesView) -> Seq<(Seq<char>, SymResView)> {
    files.filter_map(resolution_entry(files))
}

/// What `resolve` answers for a path: the chain resolution when the path
/// is a symlink of the package, nothing otherwise.
pub open spec fn symlink_resolution(files: FilesView, p: Seq<char>) -> Option<SymResView> {
    match lookup(files, p) {
        Some(FileView::Symlink(t)) => Some(resolve_of(files, p, t)),
        _ => None,
    }
}

/// One step through the symlink mapping: the stored target of `x` when
/// `x` is a symlink of the package.
pub open spec fn symlink_step(files: FilesView, x: Seq<char>) -> Option<Seq<char>> {
    match lookup(files, x) {
        Some(FileView::Symlink(t)) => Some(t),
        _ => None,
    }
}

/// A set of symlinks closed under following targets: every member is a
/// symlink of the package whose target is again a member.
pub open spec fn closed_symlink_set(files: FilesView, s: Set<Seq<char>>) -> bool {
    forall|x: Seq<char>|
        s.contains(x) ==> ((#[trigger] symlink_step(files, x)) matches Some(t) && s.contains(t))
}

/// A walk whose target lies in a closed symlink set can only end in a
/// cycle: no step out of the set exists, and the walk terminates.
pub proof fn lemma_closed_set_cycle(
    files: FilesView,
    s: Set<Seq<char>>,
    cur: Seq<char>,
    tgt: Seq<char>,
    visited: Set<Seq<char>>,
)
    requires
        closed_symlink_set(files, s),
        s.contains(tgt),
        visited.finite(),
        visited.subset_of(key_set(files)),
        key_set(files).contains(cur),
    ensures
        chain_resolve(files, cur, tgt, visited) is CycleDetected,
    decreases key_set(files).difference(visited).len(),
{
    if !visited.contains(cur) {
        assert(symlink_step(files, tgt) matches Some(t) && s.contains(t));
        match lookup(files, tgt) {
            Some(FileView::Symlink(next)) => {
                lemma_key_set_finite(files);
                lemma_lookup_in_key_set(files, tgt);
                key_set(files).lemma_set_insert_diff_decreases(visited, cur);
                lemma_closed_set_cycle(files, s, tgt, next, visited.insert(cur));
            },
            _ => {
                assert(false);
            },
        }
    }
}

/// Walking from position `k` of a chain that revisits a node ends in a
/// cycle, whatever was already visited.
proof fn lemma_chain_cycles_from(
    files: FilesView,
    chain: Seq<Seq<char>>,
    i: int,
    j: int,
    k: int,
    visited: Set<Seq<char>>,
)
    requires
        forall|m: int|
            0 <= m < chain.len() - 1 ==> symlink_step(files, #[trigger] chain[m]) == Some(
                chain[m + 1],
            ),
        0 <= i < j < chain.len(),
        chain[i] == chain[j],
        0 <= k < j,
        visited.finite(),
        visited.subset_of(key_set(files)),
    ensures
        chain_resolve(files, chain[k], chain[k + 1], visited) is CycleDetected,
    decreases j - k,
{
    assert(symlink_step(files, chain[k]) == Some(chain[k + 1]));
    lemma_lookup_in_key_set(files, chain[k]);
    if k >= i {
        let s = chain.subrange(i, j).to_set();
        assert(closed_symlink_set(files, s)) by {
            assert forall|x: Seq<char>| s.contains(x) implies (#[trigger] symlink_step(
                files,
                x,
            )) matches Some(t) && s.contains(t) by {
                let sub = chain.subrange(i, j);
                let m = choose|m: int| 0 <= m < sub.len() && sub[m] == x;
                assert(chain[i + m] == x);
                assert(symlink_step(files, x) == Some(chain[i + m + 1]));
                if i + m + 1 < j {
                    assert(sub[m + 1] == chain[i + m + 1]);
                    assert(sub.contains(chain[i + m + 1]));
                } else {
                    assert(chain[i + m + 1] == chain[i]);
                    assert(sub[0] == chain[i]);
                    assert(sub.contains(chain[i]));
                }
            }
        }
        assert(s.contains(chain[k + 1])) by {
            let sub = chain.subrange(i, j);
            if k + 1 < j {
                assert(sub[k + 1 - i] == chain[k + 1]);
                assert(sub.contains(chain[k + 1]));
            } else {
                assert(chain[k + 1] == chain[i]);
                assert(sub[0] == chain[i]);
                assert(sub.contains(chain[i]));
            }
        }
        lemma_closed_set_cycle(files, s, chain[k], chain[k + 1], visited);
    } else {
        if !visited.contains(chain[k]) {
            assert(symlink_step(files, chain[k + 1]) == Some(chain[k + 2]));
            match lookup(files, chain[k + 1]) {
                Some(FileView::Symlink(next)) => {
                    assert(next == chain[k + 2]);
                    lemma_key_set_finite(files);
                    lemma_lookup_in_key_set(files, chain[k + 1]);
                    lemma_chain_cycles_from(files, chain, i, j, k + 1, visited.insert(chain[k]));
                },
                _ => {
                    assert(false);
                },
            }
        }
    }
}

/// Symlink cycle safety: on a chain of symlinks that revisits a node,
/// every symlink of the chain up to the revisit resolves to a cycle.
/// (That each such walk terminates at all is part of `chain_resolve`'s
/// definition, whose recursion is bounded by the unvisited keys.)
pub proof fn lemma_symlink_cycle_safety(
    files: FilesView,
    chain: Seq<Seq<char>>,
    i: int,
    j: int,
    k: int,
)
    requires
        forall|m: int|
            0 <= m < chain.len() - 1 ==> symlink_step(files, #[trigger] chain[m]) == Some(
                chain[m + 1],
            ),
        0 <= i < j < chain.len(),
        chain[i] == chain[j],
        0 <= k < j,
    ensures
        resolve_of(files, chain[k], chain[k + 1]) is CycleDetected,
{
    lemma_chain_cycles_from(files, chain, i, j, k, Set::<Seq<char>>::empty());
}

fn get_file<'a>(files: &'a Vec<(String, PackageFile)>, k: &str) -> (r: Option<&'a PackageFile>)
    ensures
        match r {
            Some(f) => lookup(files.deep_view(), k@) == Some(f@),
            None => lookup(files.deep_view(), k@) is None,
        },
{
    let mut i: usize = 0;
    while i < files.len()
        invariant
            i <= files.len(),
            forall|j: int| 0 <= j < i ==> files.deep_view()[j].0 != k@,
        decreases files.len() - i,
    {
        if str_eq(files[i].0.as_str(), k) {
            proof {
                lemma_lookup_skip(files.deep_view(), k@, i as int);
                assert(files.deep_view().skip(i as int)[0] == files.deep_view()[i as int]);
            }
            return Some(&files[i].1);
        }
        i = i + 1;
    }
    proof {
        lemma_lookup_skip(files.deep_view(), k@, i as int);
        assert(files.deep_view().skip(i as int).len() == 0);
    }
    None
}

/// The resolver: every symlink of the package, with where its chain ends.
pub struct SymlinkResolver {
    symlinks: Vec<(String, SymlinkResolutionResult)>,
    files: Ghost<FilesView>,
}

impl SymlinkResolver {
    /// The file mapping this resolver was built from.
    pub closed spec fn files_model(&self) -> FilesView {
        self.files@
    }

    /// The resolver holds exactly the resolutions of that mapping.
    pub closed spec fn wf(&self) -> bool {
        &&& unique_keys(self.files@)
        &&& self.symlinks.deep_view() == resolutions_of(self.files@)
    }

    /// Walk one symlink chain.
    #[verifier::loop_isolation(false)]
    fn resolve_single_symlink(
        files: &Vec<(String, PackageFile)>,
        current: &String,
        target: &String,
    ) -> (r: SymlinkResolutionResult)
        requires
            key_set(files.deep_view()).contains(current@),
        ensures
            r@ == resolve_of(files.deep_view(), current@, target@),
    {
        let ghost fv = files.deep_view();
        let mut visited: Vec<String> = Vec::new();
        let mut cur: String = current.clone();
        let mut tgt: String = target.clone();
        proof {
            lemma_key_set_finite(fv);
            assert(visited.deep_view().to_set() =~= Set::<Seq<char>>::empty());
        }
        loop
            invariant
                key_set(fv).contains(cur@),
                visited.deep_view().to_set().subset_of(key_set(fv)),
                visited.deep_view().to_set().finite(),
                resolve_of(fv, current@, target@) == chain_resolve(
                    fv,
                    cur@,
                    tgt@,
                    visited.deep_view().to_set(),
                ),
            decreases key_set(fv).difference(visited.deep_view().to_set()).len(),
        {
            let ghost vis = visited.deep_view().to_set();
            if contains_str(&visited, cur.as_str()) {
                return SymlinkResolutionResult::CycleDetected;
            }
            let ghost previs = visited.deep_view();
            visited.push(cur.clone());
            proof {
                assert(visited.deep_view() =~~= previs.push(cur@));
                assert(visited.deep_view().to_set() =~= vis.insert(cur@)) by {
                    assert forall|x: Seq<char>| visited.deep_view().contains(x) <==> (previs.contains(
                        x,
                    ) || x == cur@) by {
                        if visited.deep_view().contains(x) {
                            let j = choose|j: int|
                                0 <= j < visited.deep_view().len() && visited.deep_view()[j] == x;
                            if j < previs.len() {
                                assert(previs[j] == x);
                            }
                        }
                        if previs.contains(x) {
                            let j = choose|j: int| 0 <= j < previs.len() && previs[j] == x;
                            assert(visited.deep_view()[j] == x);
                        }
                        if x == cur@ {
                            assert(visited.deep_view()[previs.len() as int] == x);
                        }
                    }
                }
                lemma_key_set_finite(fv);
                key_set(fv).lemma_set_insert_diff_decreases(vis, cur@);
            }
            match get_file(files, tgt.as_str()) {
                Option::None => {
                    return SymlinkResolutionResult::NotFound(tgt);
                },
                Option::Some(PackageFile::Symlink(next)) => {
                    let n = next.clone();
                    proof {
                        lemma_lookup_in_key_set(fv, tgt@);
                    }
                    cur = tgt;
                    tgt = n;
                },
                Option::Some(_) => {
                    return SymlinkResolutionResult::Found(tgt);
                },
            }
        }
    }

    /// Resolve every symlink of the mapping, in mapping order.
    #[verifier::loop_isolation(false)]
    fn resolve_symlinks(files: &Vec<(String, PackageFile)>) -> (r: Vec<
        (String, SymlinkResolutionResult),
    >)
        ensures
            r.deep_view() == resolutions_of(files.deep_view()),
    {
        let ghost fv = files.deep_view();
        let ghost g = resolution_entry(fv);
        let mut out: Vec<(String, SymlinkResolutionResult)> = Vec::new();
        let mut i: usize = 0;
        proof {
            assert(fv.take(0) =~~= Seq::<(Seq<char>, FileView)>::empty());
            assert(out.deep_view() =~~= fv.take(0).filter_map(g));
        }
        while i < files.len()
            invariant
                i <= files.len(),
                out.deep_view() =~~= fv.take(i as int).filter_map(g),
            decreases files.len() - i,
        {
            let ghost prefix_seq = fv.take(i as int);
            let ghost elem = fv[i as int];
            proof {
                assert(fv.take(i + 1).drop_last() =~~= prefix_seq);
                assert(fv.take(i + 1).last() == elem);
            }
            let ghost preout = out.deep_view();
            match &files[i].1 {
                PackageFile::Symlink(t) => {
                    proof {
                        let keys = fv.map_values(|p: (Seq<char>, FileView)| p.0);
                        assert(keys[i as int] == fv[i as int].0);
                        assert(keys.contains(fv[i as int].0));
                    }
                    let res = Self::resolve_single_symlink(files, &files[i].0, t);
                    let key = files[i].0.clone();
                    out.push((key, res));
                    proof {
                        assert(out.deep_view() =~~= preout.push(
                            (elem.0, resolve_of(fv, elem.0, elem.1->Symlink_0)),
                        ));
                        assert(out.deep_view() =~~= fv.take(i + 1).filter_map(g));
                    }
                },
                _ => {
                    proof {
                        assert(out.deep_view() =~~= fv.take(i + 1).filter_map(g));
                    }
                },
            }
            i = i + 1;
        }
        proof {
            assert(fv.take(files.len() as int) =~~= fv);
        }
        out
    }

    /// Build the resolver for a package.
    pub fn new(package: &Package) -> (r: SymlinkResolver)
        requires
            package.wf(),
        ensures
            r.wf(),
            r.files_model() == package@.files,
    {
        let res = Self::resolve_symlinks(package.files());
        SymlinkResolver { symlinks: res, files: Ghost(package@.files) }
    }

    /// The resolution recorded for `path`: the chain result when `path`
    /// is a symlink of the package, nothing otherwise.
    #[verifier::loop_isolation(false)]
    pub fn resolve(&self, path: &str) -> (r: Option<&SymlinkResolutionResult>)
        requires
            self.wf(),
        ensures
            match r {
                Some(res) => symlink_resolution(self.files_model(), path@) == Some(res@),
                None => symlink_resolution(self.files_model(), path@) is None,
            },
    {
        let ghost fv = self.files@;
        let ghost g = resolution_entry(fv);
        let mut i: usize = 0;
        while i < self.symlinks.len()
            invariant
                self.wf(),
                fv == self.files@,
                i <= self.symlinks.len(),
                self.symlinks.deep_view() == resolutions_of(fv),
                forall|j: int| 0 <= j < i ==> self.symlinks.deep_view()[j].0 != path@,
            decreases self.symlinks.len() - i,
        {
            if str_eq(self.symlinks[i].0.as_str(), path) {
                proof {
                    let entry = self.symlinks.deep_view()[i as int];
                    assert(resolutions_of(fv).contains(entry)) by {
                        assert(resolutions_of(fv)[i as int] == entry);
                    }
                    Seq::lemma_filter_map_contains(fv, g, entry);
                    let src = choose|t: (Seq<char>, FileView)| #[trigger]
                        fv.contains(t) && g(t) == Some(entry);
                    let k = choose|k: int| 0 <= k < fv.len() && fv[k] == src;
                    lemma_lookup_unique(fv, k);
                    assert(lookup(fv, path@) == Some(src.1));
                }
                return Some(&self.symlinks[i].1);
            }
            i = i + 1;
        }
        proof {
            match lookup(fv, path@) {
                Some(FileView::Symlink(t)) => {
                    lemma_lookup_some_index(fv, path@);
                    let k = choose|k: int|
                        0 <= k < fv.len() && fv[k].0 == path@ && fv[k].1 == lookup(
                            fv,
                            path@,
                        ).unwrap();
                    lemma_filter_map_forward(fv, g, k);
                    let entry = (path@, resolve_of(fv, path@, t));
                    assert(resolutions_of(fv).contains(entry));
                    let j = choose|j: int|
                        0 <= j < resolutions_of(fv).len() && resolutions_of(fv)[j] == entry;
                    assert(self.symlinks.deep_view()[j].0 == path@);
                },
                _ => {},
            }
        }
        None
    }

    /// All recorded resolutions, in mapping order.
    pub fn symlinks(&self) -> (r: &Vec<(String, SymlinkResolutionResult)>)
        requires
            self.wf(),
        ensures
            r.deep_view() == resolutions_of(self.files_model()),
    {
        &self.symlinks
    }
}

} // verus!
