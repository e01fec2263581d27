//! Verified character-level string utilities: equality, substring search,
//! token replacement, splitting, trimming, and path-string helpers.
//!
//! All contracts are stated over `Seq<char>` views of `&str` / `String`.

use vstd::prelude::*;
use vstd::string::StrSliceExecFns;
use vstd::string::StringExecFns;

verus! {

/// The token `t` occurs in `s` at position `i`.
pub open spec fn token_at(s: Seq<char>, t: Seq<char>, i: int) -> bool {
    0 <= i && i + t.len() <= s.len() && s.subrange(i, i + t.len()) == t
}

/// The token `t` occurs somewhere in `s`.
pub open spec fn contains_token(s: Seq<char>, t: Seq<char>) -> bool {
    exists|i: int| token_at(s, t, i)
}

/// `s` begins with the character `c`.
pub open spec fn starts_with_char(s: Seq<char>, c: char) -> bool {
    s.len() > 0 && s[0] == c
}

/// Character-by-character string equality.
pub fn str_eq(a: &str, b: &str) -> (r: bool)
    ensures
        r == (a@ == b@),
{
    let alen = a.unicode_len();
    let blen = b.unicode_len();
    if alen != blen {
        return false;
    }
    let mut i: usize = 0;
    while i < alen
        invariant
            i <= alen,
            alen == a@.len(),
            alen == b@.len(),
            forall|j: int| 0 <= j < i ==> a@[j] == b@[j],
        decreases alen - i,
    {
        if a.get_char(i) != b.get_char(i) {
            return false;
        }
        i = i + 1;
    }
    proof {
        assert(a@ =~= b@);
    }
    true
}

/// Whether the token `t` occurs in `s` at position `i`.
pub fn has_token_at(s: &str, t: &str, i: usize) -> (r: bool)
    ensures
        r == token_at(s@, t@, i as int),
{
    let slen = s.unicode_len();
    let tlen = t.unicode_len();
    if i > slen || tlen > slen - i {
        return false;
    }
    let mut j: usize = 0;
    while j < tlen
        invariant
            j <= tlen,
            i + tlen <= slen,
            slen == s@.len(),
            tlen == t@.len(),
            forall|k: int| 0 <= k < j ==> s@[i + k] == t@[k],
        decreases tlen - j,
    {
        if s.get_char(i + j) != t.get_char(j) {
            proof {
                assert(s@.subrange(i as int, i + tlen) != t@) by {
                    if s@.subrange(i as int, i + tlen) == t@ {
                        assert(s@.subrange(i as int, i + tlen)[j as int] == t@[j as int]);
                    }
                }
            }
            return false;
        }
        j = j + 1;
    }
    proof {
        assert(s@.subrange(i as int, i + tlen) =~= t@);
    }
    true
}

/// Position of the first occurrence of the token `t` in `s`, if any.
pub fn find_token(s: &str, t: &str) -> (r: Option<usize>)
    ensures
        match r {
            Some(i) => token_at(s@, t@, i as int) && forall|j: int|
                0 <= j < i ==> !token_at(s@, t@, j),
            None => forall|j: int| !token_at(s@, t@, j),
        },
{
    let slen = s.unicode_len();
    let tlen = t.unicode_len();
    if tlen > slen {
        return None;
    }
    if tlen == 0 {
        proof {
            assert(s@.subrange(0, 0) =~= t@);
        }
        return Some(0);
    }
    let mut i: usize = 0;
    while i <= slen - tlen
        invariant
            0 < tlen <= slen,
            i <= slen - tlen + 1,
            slen == s@.len(),
            tlen == t@.len(),
            forall|j: int| 0 <= j < i ==> !token_at(s@, t@, j),
        decreases slen - tlen - i + 1,
    {
        if has_token_at(s, t, i) {
            return Some(i);
        }
        i = i + 1;
    }
    None
}

/// Whether the token `t` occurs anywhere in `s`.
pub fn contains_token_exec(s: &str, t: &str) -> (r: bool)
    ensures
        r == contains_token(s@, t@),
{
    let r = find_token(s, t);
    match r {
        Some(i) => {
            proof {
                assert(token_at(s@, t@, i as int));
            }
            true
        },
        None => false,
    }
}

/// Whether `s` begins with the character `c`.
pub fn starts_with_char_exec(s: &str, c: char) -> (r: bool)
    ensures
        r == starts_with_char(s@, c),
{
    if s.unicode_len() == 0 {
        false
    } else {
        s.get_char(0) == c
    }
}

/// Left-to-right, non-overlapping replacement of `from` by `to` in `s`.
pub open spec fn replace_seq(s: Seq<char>, from: Seq<char>, to: Seq<char>) -> Seq<char>
    decreases s.len(),
    when from.len() > 0
{
    if s.len() < from.len() {
        s
    } else if s.subrange(0, from.len() as int) == from {
        to + replace_seq(s.skip(from.len() as int), from, to)
    } else {
        seq![s[0]] + replace_seq(s.skip(1), from, to)
    }
}

/// Replace every occurrence of `from` in `s` by `to`, scanning left to
/// right without overlap.
pub fn replace_all(s: &str, from: &str, to: &str) -> (r: String)
    requires
        from@.len() > 0,
    ensures
        r@ == replace_seq(s@, from@, to@),
{
    let slen = s.unicode_len();
    let flen = from.unicode_len();
    let mut res = String::new();
    let mut i: usize = 0;
    proof {
        assert(s@.skip(0) =~= s@);
        assert(res@ + replace_seq(s@, from@, to@) =~= replace_seq(s@, from@, to@));
    }
    while i < slen
        invariant
            i <= slen,
            slen == s@.len(),
            flen == from@.len(),
            flen > 0,
            replace_seq(s@, from@, to@) == res@ + replace_seq(
                s@.skip(i as int),
                from@,
                to@,
            ),
        decreases slen - i,
    {
        let ghost pre = res@;
        if has_token_at(s, from, i) {
            res.append(to);
            proof {
                let rem = s@.skip(i as int);
                assert(rem.subrange(0, flen as int) =~= s@.subrange(i as int, i + flen));
                assert(rem.skip(flen as int) =~= s@.skip(i + flen));
                assert(replace_seq(rem, from@, to@) == to@ + replace_seq(
                    s@.skip(i + flen),
                    from@,
                    to@,
                ));
                assert(pre + replace_seq(rem, from@, to@) =~= res@ + replace_seq(
                    s@.skip(i + flen),
                    from@,
                    to@,
                ));
            }
            i = i + flen;
        } else {
            let c = s.substring_char(i, i + 1);
            res.append(c);
            proof {
                let rem = s@.skip(i as int);
                assert(rem.len() == slen - i);
                assert(c@ =~= seq![s@[i as int]]);
                if rem.len() < flen {
                    assert(s@.skip(i + 1).len() < flen);
                    assert(replace_seq(rem, from@, to@) == rem);
                    assert(replace_seq(s@.skip(i + 1), from@, to@) == s@.skip(i + 1));
                    assert(rem =~= seq![s@[i as int]] + s@.skip(i + 1));
                } else {
                    assert(rem.subrange(0, flen as int) =~= s@.subrange(i as int, i + flen));
                    assert(!token_at(s@, from@, i as int));
                    assert(rem.subrange(0, flen as int) != from@);
                    assert(rem[0] == s@[i as int]);
                    assert(rem.skip(1) =~= s@.skip(i + 1));
                    assert(replace_seq(rem, from@, to@) == seq![s@[i as int]] + replace_seq(
                        s@.skip(i + 1),
                        from@,
                        to@,
                    ));
                }
                assert(pre + replace_seq(rem, from@, to@) =~= res@ + replace_seq(
                    s@.skip(i + 1),
                    from@,
                    to@,
                ));
            }
            i = i + 1;
        }
    }
    proof {
        assert(s@.skip(slen as int) =~= Seq::<char>::empty());
        assert(replace_seq(Seq::<char>::empty(), from@, to@) == Seq::<char>::empty());
        assert(res@ + Seq::<char>::empty() =~= res@);
    }
    res
}

/// Segments of `s` delimited by the character `c`; delimiters are not
/// kept, and empty segments are kept (splitting "a::b" on ':' gives
/// ["a", "", "b"]).
pub open spec fn split_seq(s: Seq<char>, c: char) -> Seq<Seq<char>>
    decreases s.len(),
{
    if s.len() == 0 {
        seq![s]
    } else if s[0] == c {
        seq![Seq::<char>::empty()] + split_seq(s.skip(1), c)
    } else {
        let rest = split_seq(s.skip(1), c);
        seq![seq![s[0]] + rest[0]] + rest.skip(1)
    }
}

pub proof fn lemma_split_len(s: Seq<char>, c: char)
    ensures
        split_seq(s, c).len() >= 1,
    decreases s.len(),
{
    if s.len() == 0 {
    } else {
        lemma_split_len(s.skip(1), c);
    }
}

/// The first segment of a split, extended at the front by `pre`.
pub open spec fn shift_first(ss: Seq<Seq<char>>, pre: Seq<char>) -> Seq<Seq<char>>
    recommends
        ss.len() > 0,
{
    seq![pre + ss[0]] + ss.skip(1)
}

/// Split `s` on the character `c`, keeping empty segments.
pub fn split_on(s: &str, c: char) -> (r: Vec<String>)
    ensures
        r.deep_view() == split_seq(s@, c),
        r.len() >= 1,
{
    let slen = s.unicode_len();
    let mut out: Vec<String> = Vec::new();
    let mut cur = String::new();
    let mut i: usize = 0;
    proof {
        lemma_split_len(s@, c);
        assert(s@.skip(0) =~= s@);
        assert(out.deep_view() + shift_first(split_seq(s@, c), cur@) =~~= split_seq(s@, c));
    }
    while i < slen
        invariant
            i <= slen,
            slen == s@.len(),
            split_seq(s@, c) =~~= out.deep_view() + shift_first(
                split_seq(s@.skip(i as int), c),
                cur@,
            ),
        decreases slen - i,
    {
        let ghost rem = s@.skip(i as int);
        let ghost rest = split_seq(s@.skip(i + 1), c);
        proof {
            lemma_split_len(s@.skip(i + 1), c);
            assert(rem[0] == s@[i as int]);
            assert(rem.skip(1) =~= s@.skip(i + 1));
        }
        let ch = s.get_char(i);
        if ch == c {
            proof {
                assert(split_seq(rem, c) =~~= seq![Seq::<char>::empty()] + rest);
                let out2 = out.deep_view().push(cur@);
                assert(out.deep_view() + shift_first(split_seq(rem, c), cur@) =~~= out2
                    + shift_first(rest, Seq::<char>::empty()));
                assert(shift_first(rest, Seq::<char>::empty()) =~~= rest) by {
                    assert(Seq::<char>::empty() + rest[0] =~= rest[0]);
                    assert(seq![rest[0]] + rest.skip(1) =~~= rest);
                }
            }
            out.push(cur);
            cur = String::new();
            proof {
                assert(shift_first(split_seq(s@.skip(i + 1), c), cur@) =~~= split_seq(
                    s@.skip(i + 1),
                    c,
                ));
            }
        } else {
            let ghost oldcur = cur@;
            let piece = s.substring_char(i, i + 1);
            cur.append(piece);
            proof {
                assert(piece@ =~= seq![s@[i as int]]);
                assert(cur@ =~= oldcur + seq![s@[i as int]]);
                assert(split_seq(rem, c) =~~= seq![seq![s@[i as int]] + rest[0]] + rest.skip(1));
                assert(oldcur + (seq![s@[i as int]] + rest[0]) =~= cur@ + rest[0]);
                assert(shift_first(split_seq(rem, c), oldcur) =~~= shift_first(rest, cur@)) by {
                    assert(split_seq(rem, c)[0] == seq![s@[i as int]] + rest[0]);
                    assert(split_seq(rem, c).skip(1) =~~= rest.skip(1));
                }
            }
        }
        i = i + 1;
    }
    proof {
        assert(s@.skip(slen as int) =~= Seq::<char>::empty());
        assert(split_seq(Seq::<char>::empty(), c) =~~= seq![Seq::<char>::empty()]);
        assert(shift_first(seq![Seq::<char>::empty()], cur@) =~~= seq![cur@]) by {
            assert(cur@ + Seq::<char>::empty() =~= cur@);
            assert(seq![Seq::<char>::empty()].skip(1) =~~= Seq::<Seq<char>>::empty());
        }
        assert(out.deep_view().push(cur@) =~~= out.deep_view() + seq![cur@]);
    }
    let ghost pre = out.deep_view();
    out.push(cur);
    proof {
        assert(out.deep_view() =~~= pre.push(cur@));
        assert(out.deep_view() =~~= split_seq(s@, c));
    }
    out
}

/// Split `s` on the character `c` and drop empty segments.
#[verifier::loop_isolation(false)]
pub fn split_nonempty(s: &str, c: char) -> (r: Vec<String>)
    ensures
        r.deep_view() == split_seq(s@, c).filter(|x: Seq<char>| x.len() > 0),
{
    let parts = split_on(s, c);
    let ghost pred = |x: Seq<char>| x.len() > 0;
    let mut out: Vec<String> = Vec::new();
    let mut i: usize = 0;
    proof {
        assert(parts.deep_view().take(0) =~~= Seq::<Seq<char>>::empty());
        assert(Seq::<Seq<char>>::empty().filter(pred) =~~= Seq::<Seq<char>>::empty()) by {
            reveal_with_fuel(Seq::filter, 1);
        }
        assert(out.deep_view() =~~= Seq::<Seq<char>>::empty());
    }
    while i < parts.len()
        invariant
            i <= parts.len(),
            out.deep_view() =~~= parts.deep_view().take(i as int).filter(pred),
        decreases parts.len() - i,
    {
        let ghost prefix = parts.deep_view().take(i as int);
        let ghost elem = parts.deep_view()[i as int];
        proof {
            assert(parts.deep_view().take(i + 1) =~~= prefix + seq![elem]);
            Seq::filter_distributes_over_add(prefix, seq![elem], pred);
            assert(seq![elem].filter(pred) =~~= if pred(elem) {
                seq![elem]
            } else {
                Seq::<Seq<char>>::empty()
            }) by {
                reveal_with_fuel(Seq::filter, 2);
                assert(seq![elem].drop_last() =~~= Seq::<Seq<char>>::empty());
            }
        }
        let ghost preout = out.deep_view();
        if !parts[i].as_str().is_empty() {
            let p = parts[i].clone();
            out.push(p);
            proof {
                assert(elem == parts@[i as int]@);
                assert(out.deep_view() =~~= preout.push(elem));
                assert(out.deep_view() =~~= parts.deep_view().take(i + 1).filter(pred));
            }
        } else {
            proof {
                assert(elem == parts@[i as int]@);
                assert(!pred(elem));
                assert(out.deep_view() =~~= parts.deep_view().take(i + 1).filter(pred));
            }
        }
        i = i + 1;
    }
    proof {
        assert(parts.deep_view().take(parts.len() as int) =~~= parts.deep_view());
        assert(out.deep_view() =~~= split_seq(s@, c).filter(pred));
    }
    out
}

/// An element mapped to `Some` is in the `filter_map` image.
pub proof fn lemma_filter_map_forward<A, B>(s: Seq<A>, f: spec_fn(A) -> Option<B>, i: int)
    requires
        0 <= i < s.len(),
        f(s[i]) is Some,
    ensures
        s.filter_map(f).contains(f(s[i]).unwrap()),
    decreases s.len(),
{
    if i == s.len() - 1 {
        let b = f(s[i]).unwrap();
        assert(s.filter_map(f) == s.drop_last().filter_map(f) + seq![b]);
        assert(s.filter_map(f)[s.filter_map(f).len() - 1] == b);
    } else {
        lemma_filter_map_forward(s.drop_last(), f, i);
        assert(s.drop_last()[i] == s[i]);
        let elt = f(s[i]).unwrap();
        assert(s.drop_last().filter_map(f).contains(elt));
        match f(s.last()) {
            Some(b) => {
                assert(s.filter_map(f) == s.drop_last().filter_map(f).push(b));
                let j = choose|j: int|
                    0 <= j < s.drop_last().filter_map(f).len() && s.drop_last().filter_map(f)[j]
                        == elt;
                assert(s.filter_map(f)[j] == elt);
            },
            None => {},
        }
    }
}

/// Whether the string `s` occurs in `v`.
pub fn contains_str(v: &Vec<String>, s: &str) -> (r: bool)
    ensures
        r == v.deep_view().contains(s@),
{
    let mut i: usize = 0;
    while i < v.len()
        invariant
            i <= v.len(),
            forall|j: int| 0 <= j < i ==> v.deep_view()[j] != s@,
        decreases v.len() - i,
    {
        if str_eq(v[i].as_str(), s) {
            proof {
                assert(v.deep_view()[i as int] == s@);
            }
            return true;
        }
        i = i + 1;
    }
    false
}

/// ASCII whitespace, the characters trimmed from system-dependency lines.
pub open spec fn is_space(c: char) -> bool {
    c == ' ' || c == '\t' || c == '\n' || c == '\r' || c == '\x0b' || c == '\x0c'
}

pub open spec fn trim_start_seq(s: Seq<char>) -> Seq<char>
    decreases s.len(),
{
    if s.len() > 0 && is_space(s[0]) {
        trim_start_seq(s.skip(1))
    } else {
        s
    }
}

pub open spec fn trim_end_seq(s: Seq<char>) -> Seq<char>
    decreases s.len(),
{
    if s.len() > 0 && is_space(s[s.len() - 1]) {
        trim_end_seq(s.take(s.len() - 1))
    } else {
        s
    }
}

/// `s` with leading and trailing whitespace removed.
pub open spec fn trim_seq(s: Seq<char>) -> Seq<char> {
    trim_end_seq(trim_start_seq(s))
}

proof fn lemma_trim_start_skip(s: Seq<char>, a: int)
    requires
        0 <= a <= s.len(),
        forall|j: int| 0 <= j < a ==> is_space(s[j]),
    ensures
        trim_start_seq(s) == trim_start_seq(s.skip(a)),
    decreases a,
{
    if a > 0 {
        assert(is_space(s[0]));
        assert(trim_start_seq(s) == trim_start_seq(s.skip(1)));
        lemma_trim_start_skip(s.skip(1), a - 1);
        assert(s.skip(1).skip(a - 1) =~= s.skip(a));
    } else {
        assert(s.skip(0) =~= s);
    }
}

proof fn lemma_trim_end_take(s: Seq<char>, b: int)
    requires
        0 <= b <= s.len(),
        forall|j: int| b <= j < s.len() ==> is_space(s[j]),
    ensures
        trim_end_seq(s) == trim_end_seq(s.take(b)),
    decreases s.len() - b,
{
    if b < s.len() {
        assert(is_space(s[s.len() - 1]));
        assert(trim_end_seq(s) == trim_end_seq(s.take(s.len() - 1)));
        lemma_trim_end_take(s.take(s.len() - 1), b);
        assert(s.take(s.len() - 1).take(b) =~= s.take(b));
    } else {
        assert(s.take(s.len() as int) =~= s);
    }
}

fn is_space_exec(c: char) -> (r: bool)
    ensures
        r == is_space(c),
{
    c == ' ' || c == '\t' || c == '\n' || c == '\r' || c == '\x0b' || c == '\x0c'
}

/// Remove leading and trailing whitespace from `s`.
#[verifier::loop_isolation(false)]
pub fn trim(s: &str) -> (r: String)
    ensures
        r@ == trim_seq(s@),
{
    let slen = s.unicode_len();
    let mut a: usize = 0;
    while a < slen && is_space_exec(s.get_char(a))
        invariant
            a <= slen,
            forall|j: int| 0 <= j < a ==> is_space(s@[j]),
        decreases slen - a,
    {
        a = a + 1;
    }
    proof {
        lemma_trim_start_skip(s@, a as int);
        if a < slen {
            assert(trim_start_seq(s@.skip(a as int)) == s@.skip(a as int));
        } else {
            assert(s@.skip(a as int) =~= Seq::<char>::empty());
            assert(trim_start_seq(s@.skip(a as int)) == s@.skip(a as int));
        }
    }
    let mut b: usize = slen;
    while b > a && is_space_exec(s.get_char(b - 1))
        invariant
            a <= b <= slen,
            forall|j: int| b <= j < slen ==> is_space(s@[j]),
        decreases b,
    {
        b = b - 1;
    }
    let ghost tail = s@.skip(a as int);
    proof {
        lemma_trim_end_take(tail, b - a);
        if b > a {
            assert(!is_space(s@[b - 1]));
            assert(tail.take(b - a)[b - a - 1] == s@[b - 1]);
            assert(trim_end_seq(tail.take(b - a)) == tail.take(b - a));
        } else {
            assert(tail.take(0) =~= Seq::<char>::empty());
            assert(trim_end_seq(tail.take(0)) == tail.take(0));
        }
        assert(tail.take(b - a) =~= s@.subrange(a as int, b as int));
    }
    let r = s.substring_char(a, b);
    r.to_owned()
}

/// Index of the last occurrence of the character `c` in `s`, if any.
pub open spec fn rfind_seq(s: Seq<char>, c: char) -> Option<int>
    decreases s.len(),
{
    if s.len() == 0 {
        None
    } else if s[s.len() - 1] == c {
        Some(s.len() - 1)
    } else {
        rfind_seq(s.take(s.len() - 1), c)
    }
}

proof fn lemma_rfind_none(s: Seq<char>, c: char, b: int)
    requires
        0 <= b <= s.len(),
        forall|j: int| b <= j < s.len() ==> s[j] != c,
    ensures
        rfind_seq(s, c) == rfind_seq(s.take(b), c),
    decreases s.len() - b,
{
    if b < s.len() {
        assert(s[s.len() - 1] != c);
        lemma_rfind_none(s.take(s.len() - 1), c, b);
        assert(s.take(s.len() - 1).take(b) =~= s.take(b));
    } else {
        assert(s.take(s.len() as int) =~= s);
    }
}

/// Index of the last occurrence of the character `c` in `s`, if any.
#[verifier::loop_isolation(false)]
pub fn rfind_char(s: &str, c: char) -> (r: Option<usize>)
    ensures
        match r {
            Some(i) => rfind_seq(s@, c) == Some(i as int),
            None => rfind_seq(s@, c) is None,
        },
{
    let slen = s.unicode_len();
    let mut b: usize = slen;
    while b > 0
        invariant
            b <= slen,
            forall|j: int| b <= j < slen ==> s@[j] != c,
        decreases b,
    {
        if s.get_char(b - 1) == c {
            proof {
                lemma_rfind_none(s@, c, b as int);
                assert(s@.take(b as int)[b - 1] == c);
                assert(rfind_seq(s@.take(b as int), c) == Some(b - 1));
            }
            return Some(b - 1);
        }
        b = b - 1;
    }
    proof {
        lemma_rfind_none(s@, c, 0);
        assert(s@.take(0) =~= Seq::<char>::empty());
    }
    None
}

/// The directory part of a path: everything before the last `/`, or `/`
/// itself when the last `/` is the first character; a string without `/`
/// has the empty directory.  Intended for lexically normalized paths.
pub open spec fn parent_dir_of(s: Seq<char>) -> Seq<char> {
    match rfind_seq(s, '/') {
        Some(i) => if i == 0 {
            seq!['/']
        } else {
            s.take(i)
        },
        None => Seq::<char>::empty(),
    }
}

/// The base name of a path: everything after the last `/`, or the whole
/// string when it has no `/`.
pub open spec fn base_name_of(s: Seq<char>) -> Seq<char> {
    match rfind_seq(s, '/') {
        Some(i) => s.skip(i + 1),
        None => s,
    }
}

/// Path concatenation: a `/` is put between `dir` and `name` unless `dir`
/// already ends with one.
pub open spec fn join_of(dir: Seq<char>, name: Seq<char>) -> Seq<char> {
    if dir.len() > 0 && dir[dir.len() - 1] == '/' {
        dir + name
    } else {
        dir + seq!['/'] + name
    }
}

/// The directory part of a path (see `parent_dir_of`).
pub fn parent_dir(s: &str) -> (r: String)
    ensures
        r@ == parent_dir_of(s@),
{
    match rfind_char(s, '/') {
        Some(i) => {
            proof {
                lemma_rfind_in_range(s@, '/');
            }
            if i == 0 {
                proof {
                    reveal_strlit("/");
                    assert("/"@ =~= seq!['/']);
                }
                String::from_str("/")
            } else {
                let r = s.substring_char(0, i);
                proof {
                    assert(r@ =~= s@.take(i as int));
                }
                r.to_owned()
            }
        },
        None => String::new(),
    }
}

/// The base name of a path (see `base_name_of`).
pub fn base_name(s: &str) -> (r: String)
    ensures
        r@ == base_name_of(s@),
{
    let slen = s.unicode_len();
    match rfind_char(s, '/') {
        Some(i) => {
            proof {
                assert(rfind_seq(s@, '/') == Some(i as int));
                lemma_rfind_in_range(s@, '/');
            }
            let r = s.substring_char(i + 1, slen);
            proof {
                assert(r@ =~= s@.skip(i + 1));
            }
            r.to_owned()
        },
        None => s.to_owned(),
    }
}

pub proof fn lemma_rfind_in_range(s: Seq<char>, c: char)
    ensures
        match rfind_seq(s, c) {
            Some(i) => 0 <= i < s.len() && s[i] == c,
            None => true,
        },
    decreases s.len(),
{
    if s.len() > 0 && s[s.len() - 1] != c {
        lemma_rfind_in_range(s.take(s.len() - 1), c);
    }
}

/// Join a directory and a file name (see `join_of`).
pub fn join_path(dir: &str, name: &str) -> (r: String)
    ensures
        r@ == join_of(dir@, name@),
{
    let dlen = dir.unicode_len();
    let mut r = dir.to_owned();
    if dlen == 0 || dir.get_char(dlen - 1) != '/' {
        proof {
            reveal_strlit("/");
            assert("/"@ =~= seq!['/']);
        }
        r.append("/");
    }
    r.append(name);
    r
}

} // verus!
