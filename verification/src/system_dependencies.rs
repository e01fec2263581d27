//! The set of library basenames the host system is expected to provide.

use vstd::prelude::*;
use crate::strutil::{split_seq, split_on, trim_seq, trim, str_eq};

verus! {

/// A line of the configuration text names a dependency when, after
/// trimming, it is nonempty and no comment.
pub open spec fn keeps_line(l: Seq<char>) -> bool {
    l.len() > 0 && l[0] != '#'
}

/// The set of names in a configuration text: one per line, trimmed,
/// blank lines and `#` comments ignored.
pub open spec fn parsed_deps(text: Seq<char>) -> Set<Seq<char>> {
    split_seq(text, '\n').map_values(|l: Seq<char>| trim_seq(l)).filter(
        |l: Seq<char>| keeps_line(l),
    ).to_set()
}

/// Exact basenames considered host-provided.
pub struct SystemDependencies {
    dependencies: Vec<String>,
}

impl SystemDependencies {
    /// The set of host-provided names.
    pub closed spec fn set_model(&self) -> Set<Seq<char>> {
        self.dependencies.deep_view().to_set()
    }

    /// The stored list holds each name once.
    pub closed spec fn wf(&self) -> bool {
        self.dependencies.deep_view().no_duplicates()
    }

    /// The empty set: no dependency is host-provided.
    pub fn empty() -> (r: SystemDependencies)
        ensures
            r.wf(),
            r.set_model() == Set::<Seq<char>>::empty(),
    {
        let r = SystemDependencies { dependencies: Vec::new() };
        proof {
            assert(r.dependencies.deep_view().to_set() =~= Set::<Seq<char>>::empty());
        }
        r
    }

    /// Build the set from a configuration text: one name per line,
    /// trimmed; blank lines and lines starting with `#` are ignored.
    #[verifier::loop_isolation(false)]
    pub fn from_content(text: &str) -> (r: SystemDependencies)
        ensures
            r.wf(),
            r.set_model() == parsed_deps(text@),
    {
        let lines = split_on(text, '\n');
        let ghost trimmed = lines.deep_view().map_values(|l: Seq<char>| trim_seq(l));
        let ghost kept = trimmed.filter(|l: Seq<char>| keeps_line(l));
        let mut out: Vec<String> = Vec::new();
        let mut i: usize = 0;
        proof {
            assert(trimmed.take(0) =~~= Seq::<Seq<char>>::empty());
            assert(trimmed.take(0).filter(|l: Seq<char>| keeps_line(l)).to_set() =~= out.deep_view().to_set());
        }
        while i < lines.len()
            invariant
                i <= lines.len(),
                out.deep_view().no_duplicates(),
                out.deep_view().to_set() =~= trimmed.take(i as int).filter(
                    |l: Seq<char>| keeps_line(l),
                ).to_set(),
            decreases lines.len() - i,
        {
            let ghost pred = |l: Seq<char>| keeps_line(l);
            let ghost prefix_seq = trimmed.take(i as int);
            let ghost elem = trimmed[i as int];
            proof {
                reveal_with_fuel(Seq::filter, 2);
                assert(trimmed.take(i + 1).drop_last() =~~= prefix_seq);
                assert(trimmed.take(i + 1).last() == elem);
                assert(trimmed.take(i + 1).filter(pred) == if pred(elem) {
                    prefix_seq.filter(pred).push(elem)
                } else {
                    prefix_seq.filter(pred)
                });
            }
            let t = trim(lines[i].as_str());
            let keep = if t.as_str().is_empty() {
                false
            } else {
                t.as_str().get_char(0) != '#'
            };
            if keep {
                let mut present = false;
                let mut j: usize = 0;
                while j < out.len()
                    invariant
                        j <= out.len(),
                        present == exists|k: int| 0 <= k < j && out.deep_view()[k] == t@,
                    decreases out.len() - j,
                {
                    if str_eq(out[j].as_str(), t.as_str()) {
                        present = true;
                        proof {
                            assert(out.deep_view()[j as int] == t@);
                        }
                        j = out.len();
                    } else {
                        j = j + 1;
                    }
                }
                if !present {
                    let ghost preout = out.deep_view();
                    out.push(t);
                    proof {
                        assert(out.deep_view() =~~= preout.push(elem));
                        assert(!preout.contains(elem));
                        assert(out.deep_view().to_set() =~= prefix_seq.filter(pred).to_set().insert(
                            elem,
                        )) by {
                            assert forall|x: Seq<char>|
                                out.deep_view().contains(x) <==> (preout.contains(x) || x
                                    == elem) by {
                                if out.deep_view().contains(x) {
                                    let k = choose|k: int|
                                        0 <= k < out.deep_view().len() && out.deep_view()[k] == x;
                                    if k < preout.len() {
                                        assert(preout[k] == x);
                                    }
                                }
                                if preout.contains(x) {
                                    let k = choose|k: int|
                                        0 <= k < preout.len() && preout[k] == x;
                                    assert(out.deep_view()[k] == x);
                                }
                                if x == elem {
                                    assert(out.deep_view()[preout.len() as int] == x);
                                }
                            }
                        }
                        assert(trimmed.take(i + 1).filter(pred).to_set() =~= prefix_seq.filter(
                            pred,
                        ).to_set().insert(elem)) by {
                            let s = prefix_seq.filter(pred);
                            assert(trimmed.take(i + 1).filter(pred) == s.push(elem));
                            assert forall|x: Seq<char>|
                                s.push(elem).contains(x) <==> (s.contains(x) || x == elem) by {
                                if s.push(elem).contains(x) {
                                    let k = choose|k: int|
                                        0 <= k < s.push(elem).len() && s.push(elem)[k] == x;
                                    if k < s.len() {
                                        assert(s[k] == x);
                                    }
                                }
                                if s.contains(x) {
                                    let k = choose|k: int| 0 <= k < s.len() && s[k] == x;
                                    assert(s.push(elem)[k] == x);
                                }
                                if x == elem {
                                    assert(s.push(elem)[s.len() as int] == x);
                                }
                            }
                        }
                    }
                } else {
                    proof {
                        assert(out.deep_view().contains(elem));
                        let s = prefix_seq.filter(pred);
                        assert(trimmed.take(i + 1).filter(pred) == s.push(elem));
                        assert(trimmed.take(i + 1).filter(pred).to_set() =~= s.to_set().insert(
                            elem,
                        )) by {
                            assert forall|x: Seq<char>|
                                s.push(elem).contains(x) <==> (s.contains(x) || x == elem) by {
                                if s.push(elem).contains(x) {
                                    let k = choose|k: int|
                                        0 <= k < s.push(elem).len() && s.push(elem)[k] == x;
                                    if k < s.len() {
                                        assert(s[k] == x);
                                    }
                                }
                                if s.contains(x) {
                                    let k = choose|k: int| 0 <= k < s.len() && s[k] == x;
                                    assert(s.push(elem)[k] == x);
                                }
                                if x == elem {
                                    assert(s.push(elem)[s.len() as int] == x);
                                }
                            }
                        }
                        assert(out.deep_view().to_set() =~= s.to_set().insert(elem));
                    }
                }
            } else {
                proof {
                    assert(!pred(elem));
                }
            }
            i = i + 1;
        }
        proof {
            assert(trimmed.take(lines.len() as int) =~~= trimmed);
        }
        SystemDependencies { dependencies: out }
    }

    /// The stored names, one entry per name.
    pub fn dependencies(&self) -> (r: &Vec<String>)
        ensures
            r.deep_view().to_set() == self.set_model(),
            r.deep_view().no_duplicates() == self.wf(),
    {
        &self.dependencies
    }

    /// Whether `dependency` is host-provided, by exact comparison.
    pub fn contains(&self, dependency: &str) -> (r: bool)
        ensures
            r == self.set_model().contains(dependency@),
    {
        let mut i: usize = 0;
        while i < self.dependencies.len()
            invariant
                i <= self.dependencies.len(),
                forall|j: int| 0 <= j < i ==> self.dependencies.deep_view()[j] != dependency@,
            decreases self.dependencies.len() - i,
        {
            if str_eq(self.dependencies[i].as_str(), dependency) {
                proof {
                    assert(self.dependencies.deep_view()[i as int] == dependency@);
                }
                return true;
            }
            i = i + 1;
        }
        false
    }
}

} // verus!
