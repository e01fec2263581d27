//! Lexical path normalization, done by the `path_clean` crate behind a
//! trusted wrapper.

use vstd::prelude::*;
use crate::strutil::starts_with_char;

verus! {

/// The lexical normal form of a path string: repeated slashes reduced,
/// `.` components removed, `..` components resolved against the
/// preceding component (or dropped at the root).  Named here; the
/// computation is `path_clean::clean`'s.
pub uninterp spec fn cleaned(s: Seq<char>) -> Seq<char>;

/// Relies on path_clean::clean: lexical normalization of a path string,
/// a function of the string alone.  Its documentation states that an
/// empty result is replaced by "." (so the result is never empty) and
/// that a rooted path keeps its root.
#[verifier::external_body]
pub(crate) fn clean_path(s: &str) -> (r: String)
    ensures
        r@ == cleaned(s@),
        r@.len() > 0,
        starts_with_char(s@, '/') ==> starts_with_char(r@, '/'),
{
    path_clean::clean(s).to_string_lossy().into_owned()
}

} // verus!
