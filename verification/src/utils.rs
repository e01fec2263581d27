//! Path utilities for report summaries.

use vstd::prelude::*;
use vstd::string::StringExecFns;
use crate::strutil::{split_seq, split_nonempty, starts_with_char, starts_with_char_exec, str_eq};

verus! {

/// The named components of a path: the `/`-separated nonempty segments.
pub open spec fn path_comps(s: Seq<char>) -> Seq<Seq<char>> {
    split_seq(s, '/').filter(|c: Seq<char>| c.len() > 0)
}

/// The longest common prefix of two component lists.
pub open spec fn lcp(a: Seq<Seq<char>>, b: Seq<Seq<char>>) -> Seq<Seq<char>>
    decreases a.len(),
{
    if a.len() == 0 || b.len() == 0 || a[0] != b[0] {
        Seq::<Seq<char>>::empty()
    } else {
        seq![a[0]] + lcp(a.skip(1), b.skip(1))
    }
}

/// The common components of a list of paths, with whether all paths up
/// to here share a root: two paths share components only from a common
/// root (both absolute or both relative) on.
pub open spec fn common_pair(paths: Seq<Seq<char>>) -> (bool, Seq<Seq<char>>)
    recommends
        paths.len() > 0,
    decreases paths.len(),
{
    if paths.len() <= 1 {
        (starts_with_char(paths[0], '/'), path_comps(paths[0]))
    } else {
        let prev = common_pair(paths.drop_last());
        let a2 = starts_with_char(paths.last(), '/');
        if prev.0 == a2 {
            (prev.0, lcp(prev.1, path_comps(paths.last())))
        } else {
            (false, Seq::<Seq<char>>::empty())
        }
    }
}

/// Components joined back into a path: rooted at `/` when absolute.
pub open spec fn rejoin(abs: bool, comps: Seq<Seq<char>>) -> Seq<char>
    decreases comps.len(),
{
    if comps.len() == 0 {
        if abs {
            seq!['/']
        } else {
            Seq::<char>::empty()
        }
    } else {
        rejoin(abs, comps.drop_last()) + (if comps.len() == 1 {
            Seq::<char>::empty()
        } else {
            seq!['/']
        }) + comps.last()
    }
}

/// The common prefix of the paths: their shared leading components,
/// re-rooted; nothing when the list is empty or nothing is shared.
pub open spec fn common_prefix_of(paths: Seq<Seq<char>>) -> Option<Seq<char>> {
    if paths.len() == 0 {
        None
    } else {
        let p = common_pair(paths);
        let j = rejoin(p.0, p.1);
        if j.len() == 0 {
            None
        } else {
            Some(j)
        }
    }
}

fn comps_exec(s: &str) -> (r: Vec<String>)
    ensures
        r.deep_view() == path_comps(s@),
{
    split_nonempty(s, '/')
}

#[verifier::loop_isolation(false)]
fn lcp_exec(a: &Vec<String>, b: &Vec<String>) -> (r: Vec<String>)
    ensures
        r.deep_view() == lcp(a.deep_view(), b.deep_view()),
{
    let mut out: Vec<String> = Vec::new();
    let mut i: usize = 0;
    let n = if a.len() < b.len() {
        a.len()
    } else {
        b.len()
    };
    proof {
        assert(out.deep_view() =~~= Seq::<Seq<char>>::empty());
        assert(a.deep_view().skip(0) =~~= a.deep_view());
        assert(b.deep_view().skip(0) =~~= b.deep_view());
        assert(a.deep_view().take(0) =~~= Seq::<Seq<char>>::empty());
        assert(out.deep_view() + lcp(a.deep_view(), b.deep_view()) =~~= lcp(
            a.deep_view(),
            b.deep_view(),
        ));
    }
    while i < n
        invariant
            i <= n,
            n == if a.len() < b.len() {
                a.len()
            } else {
                b.len()
            },
            forall|k: int| 0 <= k < i ==> a.deep_view()[k] == b.deep_view()[k],
            out.deep_view() =~~= a.deep_view().take(i as int),
            lcp(a.deep_view(), b.deep_view()) =~~= out.deep_view() + lcp(
                a.deep_view().skip(i as int),
                b.deep_view().skip(i as int),
            ),
        decreases n - i,
    {
        let ghost av = a.deep_view();
        let ghost bv = b.deep_view();
        if str_eq(a[i].as_str(), b[i].as_str()) {
            let ghost preout = out.deep_view();
            out.push(a[i].clone());
            proof {
                assert(av.skip(i as int)[0] == av[i as int]);
                assert(bv.skip(i as int)[0] == bv[i as int]);
                assert(av.skip(i as int).skip(1) =~~= av.skip(i + 1));
                assert(bv.skip(i as int).skip(1) =~~= bv.skip(i + 1));
                assert(lcp(av.skip(i as int), bv.skip(i as int)) =~~= seq![av[i as int]] + lcp(
                    av.skip(i + 1),
                    bv.skip(i + 1),
                ));
                assert(out.deep_view() =~~= preout.push(av[i as int]));
                assert(out.deep_view() =~~= av.take(i + 1));
                assert(preout + (seq![av[i as int]] + lcp(av.skip(i + 1), bv.skip(i + 1)))
                    =~~= out.deep_view() + lcp(av.skip(i + 1), bv.skip(i + 1)));
            }
            i = i + 1;
        } else {
            proof {
                assert(av.skip(i as int)[0] == av[i as int]);
                assert(bv.skip(i as int)[0] == bv[i as int]);
                assert(lcp(av.skip(i as int), bv.skip(i as int)) =~~= Seq::<Seq<char>>::empty());
                assert(out.deep_view() + Seq::<Seq<char>>::empty() =~~= out.deep_view());
            }
            return out;
        }
    }
    proof {
        let av = a.deep_view();
        let bv = b.deep_view();
        assert(av.skip(i as int).len() == 0 || bv.skip(i as int).len() == 0);
        assert(lcp(av.skip(i as int), bv.skip(i as int)) =~~= Seq::<Seq<char>>::empty());
        assert(out.deep_view() + Seq::<Seq<char>>::empty() =~~= out.deep_view());
    }
    out
}

#[verifier::loop_isolation(false)]
fn rejoin_exec(abs: bool, comps: &Vec<String>) -> (r: String)
    ensures
        r@ == rejoin(abs, comps.deep_view()),
{
    let ghost cv = comps.deep_view();
    let mut out = String::new();
    let mut i: usize = 0;
    proof {
        reveal_strlit("/");
        assert("/"@ =~= seq!['/']);
        assert(cv.take(0) =~~= Seq::<Seq<char>>::empty());
    }
    if abs {
        out.append("/");
        proof {
            assert(out@ =~= rejoin(abs, cv.take(0)));
        }
    } else {
        proof {
            assert(out@ =~= rejoin(abs, cv.take(0)));
        }
    }
    while i < comps.len()
        invariant
            i <= comps.len(),
            out@ == rejoin(abs, cv.take(i as int)),
        decreases comps.len() - i,
    {
        let ghost prefix_seq = cv.take(i as int);
        proof {
            assert(cv.take(i + 1).drop_last() =~~= prefix_seq);
            assert(cv.take(i + 1).last() == cv[i as int]);
        }
        if i > 0 || abs {
            if i > 0 {
                out.append("/");
            }
        }
        out.append(comps[i].as_str());
        proof {
            if i == 0 {
                if abs {
                    assert(rejoin(abs, cv.take(1)) =~= seq!['/'] + Seq::<char>::empty() + cv[0]);
                } else {
                    assert(rejoin(abs, cv.take(1)) =~= Seq::<char>::empty() + Seq::<char>::empty()
                        + cv[0]);
                }
                assert(out@ =~= rejoin(abs, cv.take(i + 1)));
            } else {
                assert(rejoin(abs, cv.take(i + 1)) =~= rejoin(abs, prefix_seq) + seq!['/']
                    + cv[i as int]);
                assert(out@ =~= rejoin(abs, cv.take(i + 1)));
            }
        }
        i = i + 1;
    }
    proof {
        assert(cv.take(comps.len() as int) =~~= cv);
    }
    out
}

/// The longest path prefix shared by all given paths, by whole
/// components; `None` for an empty list or when nothing is shared.
#[verifier::loop_isolation(false)]
pub fn find_common_prefix(paths: &Vec<String>) -> (r: Option<String>)
    ensures
        match r {
            Some(s) => common_prefix_of(paths.deep_view()) == Some(s@),
            None => common_prefix_of(paths.deep_view()) is None,
        },
{
    let ghost pv = paths.deep_view();
    if paths.len() == 0 {
        return None;
    }
    let mut abs = starts_with_char_exec(paths[0].as_str(), '/');
    let mut comps = comps_exec(paths[0].as_str());
    let mut i: usize = 1;
    proof {
        assert(pv.take(1).len() == 1);
        assert(pv.take(1)[0] == pv[0]);
        assert((abs, comps.deep_view()) =~~= common_pair(pv.take(1)));
    }
    while i < paths.len()
        invariant
            1 <= i <= paths.len(),
            pv.len() == paths.len(),
            (abs, comps.deep_view()) =~~= common_pair(pv.take(i as int)),
        decreases paths.len() - i,
    {
        let ghost prefix_seq = pv.take(i as int);
        proof {
            assert(pv.take(i + 1).drop_last() =~~= prefix_seq);
            assert(pv.take(i + 1).last() == pv[i as int]);
            assert(pv.take(i + 1).len() == i + 1);
        }
        let a2 = starts_with_char_exec(paths[i].as_str(), '/');
        if abs == a2 {
            let c2 = comps_exec(paths[i].as_str());
            let joined = lcp_exec(&comps, &c2);
            comps = joined;
        } else {
            abs = false;
            comps = Vec::new();
            proof {
                assert(comps.deep_view() =~~= Seq::<Seq<char>>::empty());
            }
        }
        proof {
            assert((abs, comps.deep_view()) =~~= common_pair(pv.take(i + 1)));
        }
        i = i + 1;
    }
    proof {
        assert(pv.take(paths.len() as int) =~~= pv);
    }
    let joined = rejoin_exec(abs, &comps);
    if joined.as_str().is_empty() {
        None
    } else {
        Some(joined)
    }
}

} // verus!
