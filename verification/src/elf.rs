//! ELF metadata: object kind, needed libraries, and `RPATH`/`RUNPATH`
//! entries, with their validation and normalization rules.

use vstd::prelude::*;
use vstd::string::StrSliceExecFns;
use vstd::string::StringExecFns;
use crate::strutil::{
    token_at, contains_token, starts_with_char, has_token_at, contains_token_exec,
    starts_with_char_exec, replace_seq, replace_all,
};
use crate::pathops::{cleaned, clean_path};
use goblin::elf::dynamic::{DT_NEEDED, DT_RPATH, DT_RUNPATH};

verus! {

/// ELF object type, from the header's object-type field.
#[derive(Debug, Clone, Copy, PartialEq, Eq, Structural)]
pub enum ElfType {
    NoneType,
    Relocatable,
    Executable,
    SharedObject,
    Core,
}

/// Mathematical model of a parsed ELF object.
pub struct ElfView {
    pub kind: ElfType,
    pub needed: Seq<Seq<char>>,
    pub rpath: Seq<Seq<char>>,
    pub runpath: Seq<Seq<char>>,
}

/// Parsed ELF metadata: object kind, `DT_NEEDED` entries in file order,
/// and the colon-split `DT_RPATH` / `DT_RUNPATH` entries in file order.
#[derive(Debug, Clone, PartialEq, Eq)]
pub struct Elf {
    kind: ElfType,
    dependencies: Vec<String>,
    rpath: Vec<String>,
    runpath: Vec<String>,
}

impl View for Elf {
    type V = ElfView;

    closed spec fn view(&self) -> ElfView {
        ElfView {
            kind: self.kind,
            needed: self.dependencies.deep_view(),
            rpath: self.rpath.deep_view(),
            runpath: self.runpath.deep_view(),
        }
    }
}

impl DeepView for Elf {
    type V = ElfView;

    open spec fn deep_view(&self) -> ElfView {
        self.view()
    }
}

impl Elf {
    /// Assemble an ELF record from already-parsed parts.
    pub fn new(kind: ElfType, dependencies: Vec<String>, rpath: Vec<String>, runpath: Vec<String>) -> (r: Elf)
        ensures
            r@.kind == kind,
            r@.needed == dependencies.deep_view(),
            r@.rpath == rpath.deep_view(),
            r@.runpath == runpath.deep_view(),
    {
        Elf { kind, dependencies, rpath, runpath }
    }

    /// The ELF object type.
    pub fn kind(&self) -> (r: &ElfType)
        ensures
            *r == self@.kind,
    {
        &self.kind
    }

    /// The `DT_NEEDED` entries, in file order.
    pub fn dependencies(&self) -> (r: &Vec<String>)
        ensures
            r.deep_view() == self@.needed,
    {
        &self.dependencies
    }

    /// The colon-split `DT_RPATH` entries, in file order.
    pub fn rpath(&self) -> (r: &Vec<String>)
        ensures
            r.deep_view() == self@.rpath,
    {
        &self.rpath
    }

    /// The colon-split `DT_RUNPATH` entries, in file order.
    pub fn runpath(&self) -> (r: &Vec<String>)
        ensures
            r.deep_view() == self@.runpath,
    {
        &self.runpath
    }
}

/// The `$ORIGIN` token.
pub open spec fn origin_plain() -> Seq<char> {
    "$ORIGIN"@
}

/// The `${ORIGIN}` token.
pub open spec fn origin_braced() -> Seq<char> {
    "${ORIGIN}"@
}

/// A raw search-path entry is acceptable iff it is absolute or begins
/// with an `$ORIGIN` or `${ORIGIN}` token at offset zero; anything
/// before the token would be resolved against the process's working
/// directory first.
pub open spec fn valid_search_path(s: Seq<char>) -> bool {
    starts_with_char(s, '/') || token_at(s, origin_plain(), 0) || token_at(s, origin_braced(), 0)
}

/// A search-path entry that is not absolute and has an origin token only
/// at a nonzero offset is rejected.
pub proof fn lemma_prefixed_origin_invalid(s: Seq<char>, i: int)
    requires
        !starts_with_char(s, '/'),
        token_at(s, origin_plain(), i) || token_at(s, origin_braced(), i),
        !token_at(s, origin_plain(), 0),
        !token_at(s, origin_braced(), 0),
    ensures
        !valid_search_path(s),
{
}

impl Elf {
    /// Whether a raw search-path entry is rejected by the validation rule.
    pub fn invalid_path(path: &str) -> (r: bool)
        ensures
            r == !valid_search_path(path@),
    {
        if starts_with_char_exec(path, '/') {
            return false;
        }
        if has_token_at(path, "$ORIGIN", 0) {
            return false;
        }
        if has_token_at(path, "${ORIGIN}", 0) {
            return false;
        }
        true
    }
}

/// The offender message for one rejected entry.
pub open spec fn invalid_msg_of(prefix: Seq<char>, p: Seq<char>) -> Seq<char> {
    prefix + ": "@ + p + " is invalid"@
}

/// The map from one entry to its offender message, if it is rejected.
pub open spec fn invalid_entry(prefix: Seq<char>) -> spec_fn(Seq<char>) -> Option<Seq<char>> {
    |p: Seq<char>|
        if !valid_search_path(p) {
            Some(invalid_msg_of(prefix, p))
        } else {
            None
        }
}

/// Offender messages for the rejected entries of one list, in order.
pub open spec fn invalid_msgs_of(prefix: Seq<char>, paths: Seq<Seq<char>>) -> Seq<Seq<char>> {
    paths.filter_map(invalid_entry(prefix))
}

fn invalid_msg(prefix: &str, p: &str) -> (r: String)
    ensures
        r@ == invalid_msg_of(prefix@, p@),
{
    let mut m = prefix.to_owned();
    m.append(": ");
    m.append(p);
    m.append(" is invalid");
    m
}

impl Elf {
    /// Offender messages for the rejected entries of `paths`, each tagged
    /// with `prefix`.
    #[verifier::loop_isolation(false)]
    pub fn collect_invalid_paths(paths: &Vec<String>, prefix: &str) -> (r: Vec<String>)
        ensures
            r.deep_view() == invalid_msgs_of(prefix@, paths.deep_view()),
    {
        let ghost f = invalid_entry(prefix@);
        let mut out: Vec<String> = Vec::new();
        let mut i: usize = 0;
        proof {
            assert(paths.deep_view().take(0) =~~= Seq::<Seq<char>>::empty());
            assert(out.deep_view() =~~= Seq::<Seq<char>>::empty().filter_map(f));
        }
        while i < paths.len()
            invariant
                i <= paths.len(),
                out.deep_view() =~~= paths.deep_view().take(i as int).filter_map(f),
            decreases paths.len() - i,
        {
            let ghost prefix_seq = paths.deep_view().take(i as int);
            let ghost elem = paths.deep_view()[i as int];
            proof {
                assert(paths.deep_view().take(i + 1).drop_last() =~~= prefix_seq);
                assert(paths.deep_view().take(i + 1).last() == elem);
            }
            let ghost preout = out.deep_view();
            if Elf::invalid_path(paths[i].as_str()) {
                let m = invalid_msg(prefix, paths[i].as_str());
                out.push(m);
                proof {
                    assert(out.deep_view() =~~= preout.push(invalid_msg_of(prefix@, elem)));
                    assert(paths.deep_view().take(i + 1).filter_map(f) =~~= prefix_seq.filter_map(
                        f,
                    ).push(invalid_msg_of(prefix@, elem)));
                    assert(out.deep_view() =~~= paths.deep_view().take(i + 1).filter_map(f));
                }
            } else {
                proof {
                    assert(paths.deep_view().take(i + 1).filter_map(f) =~~= prefix_seq.filter_map(
                        f,
                    ));
                }
            }
            i = i + 1;
        }
        proof {
            assert(paths.deep_view().take(paths.len() as int) =~~= paths.deep_view());
        }
        out
    }

    /// Validate the raw `RPATH` and `RUNPATH` entries; on failure, return
    /// the offender messages (RUNPATH offenders first, as declared).
    pub fn validate(rpath: &Vec<String>, runpath: &Vec<String>) -> (r: Result<(), Vec<String>>)
        ensures
            match r {
                Ok(_) => validate_of(rpath.deep_view(), runpath.deep_view()) is Ok,
                Err(v) => validate_of(rpath.deep_view(), runpath.deep_view()) == Err::<
                    (),
                    Seq<Seq<char>>,
                >(v.deep_view()),
            },
    {
        let mut invalid: Vec<String> = Vec::new();
        let mut from_runpath = Elf::collect_invalid_paths(runpath, "RUNPATH");
        let mut from_rpath = Elf::collect_invalid_paths(rpath, "RPATH");
        let ghost ra = from_runpath.deep_view();
        let ghost rb = from_rpath.deep_view();
        invalid.append(&mut from_runpath);
        invalid.append(&mut from_rpath);
        proof {
            assert(invalid.deep_view() =~~= ra + rb);
        }
        if invalid.len() == 0 {
            proof {
                assert((ra + rb).len() == 0);
            }
            Ok(())
        } else {
            Err(invalid)
        }
    }
}

/// The validation decision over both raw lists: `Ok` iff no entry of
/// either list is rejected, `Err` with all offender messages otherwise.
pub open spec fn validate_of(rpath: Seq<Seq<char>>, runpath: Seq<Seq<char>>) -> Result<
    (),
    Seq<Seq<char>>,
> {
    let msgs = invalid_msgs_of("RUNPATH"@, runpath) + invalid_msgs_of("RPATH"@, rpath);
    if msgs.len() == 0 {
        Ok(())
    } else {
        Err(msgs)
    }
}

/// Validation rejects pre-prefix origins: an entry of either list that
/// is not absolute and carries an origin token, though none at offset
/// zero, makes the whole validation fail.
pub proof fn lemma_prefixed_origin_rejected(
    rpath: Seq<Seq<char>>,
    runpath: Seq<Seq<char>>,
    s: Seq<char>,
    i: int,
)
    requires
        rpath.contains(s) || runpath.contains(s),
        !starts_with_char(s, '/'),
        token_at(s, origin_plain(), i) || token_at(s, origin_braced(), i),
        i != 0,
        !token_at(s, origin_plain(), 0),
        !token_at(s, origin_braced(), 0),
    ensures
        validate_of(rpath, runpath) is Err,
{
    lemma_prefixed_origin_invalid(s, i);
    if runpath.contains(s) {
        let k = choose|k: int| 0 <= k < runpath.len() && runpath[k] == s;
        crate::strutil::lemma_filter_map_forward(runpath, invalid_entry("RUNPATH"@), k);
        assert(invalid_msgs_of("RUNPATH"@, runpath).contains(
            invalid_msg_of("RUNPATH"@, s),
        ));
        let m = choose|m: int|
            0 <= m < invalid_msgs_of("RUNPATH"@, runpath).len() && invalid_msgs_of(
                "RUNPATH"@,
                runpath,
            )[m] == invalid_msg_of("RUNPATH"@, s);
        assert(invalid_msgs_of("RUNPATH"@, runpath).len() > 0);
    } else {
        let k = choose|k: int| 0 <= k < rpath.len() && rpath[k] == s;
        crate::strutil::lemma_filter_map_forward(rpath, invalid_entry("RPATH"@), k);
        assert(invalid_msgs_of("RPATH"@, rpath).contains(invalid_msg_of("RPATH"@, s)));
        let m = choose|m: int|
            0 <= m < invalid_msgs_of("RPATH"@, rpath).len() && invalid_msgs_of(
                "RPATH"@,
                rpath,
            )[m] == invalid_msg_of("RPATH"@, s);
        assert(invalid_msgs_of("RPATH"@, rpath).len() > 0);
    }
}

/// `$ORIGIN` substitution: every occurrence of the braced token, or else
/// of the plain token, replaced by the directory holding the ELF.  The
/// two tokens cannot both need substitution: the character after `$`
/// differs.
pub open spec fn subst_origin_of(origin: Seq<char>, p: Seq<char>) -> Seq<char> {
    if contains_token(p, origin_braced()) {
        replace_seq(p, origin_braced(), origin)
    } else if contains_token(p, origin_plain()) {
        replace_seq(p, origin_plain(), origin)
    } else {
        p
    }
}

/// One search-path entry, normalized: after `$ORIGIN` substitution an
/// absolute entry is lexically normalized, any other entry is dropped.
pub open spec fn normalize_path_of(origin: Seq<char>, p: Seq<char>) -> Option<Seq<char>> {
    let resolved = subst_origin_of(origin, p);
    if starts_with_char(resolved, '/') {
        Some(cleaned(resolved))
    } else {
        None
    }
}

/// The list an ELF's search paths are taken from: `runpath` when it is
/// nonempty, else `rpath`.
pub open spec fn chosen_search_list(e: ElfView) -> Seq<Seq<char>> {
    if e.runpath.len() > 0 {
        e.runpath
    } else {
        e.rpath
    }
}

/// The normalization of one entry against a fixed origin, as a map.
pub open spec fn normalize_entry(origin: Seq<char>) -> spec_fn(Seq<char>) -> Option<Seq<char>> {
    |p: Seq<char>| normalize_path_of(origin, p)
}

/// All normalized search paths of an ELF, in declaration order: the
/// chosen list with each entry normalized and non-anchored entries
/// dropped.
pub open spec fn normalize_paths_of(e: ElfView, origin: Seq<char>) -> Seq<Seq<char>> {
    chosen_search_list(e).filter_map(normalize_entry(origin))
}

impl Elf {
    /// Normalize one raw search-path entry against `origin`, the
    /// directory holding the ELF.
    pub fn normalize_path(origin: &str, path: &str) -> (r: Option<String>)
        ensures
            match r {
                Some(s) => normalize_path_of(origin@, path@) == Some(s@),
                None => normalize_path_of(origin@, path@) is None,
            },
    {
        proof {
            reveal_strlit("${ORIGIN}");
            reveal_strlit("$ORIGIN");
        }
        let resolved: String = if contains_token_exec(path, "${ORIGIN}") {
            replace_all(path, "${ORIGIN}", origin)
        } else if contains_token_exec(path, "$ORIGIN") {
            replace_all(path, "$ORIGIN", origin)
        } else {
            path.to_owned()
        };
        if starts_with_char_exec(resolved.as_str(), '/') {
            Some(clean_path(resolved.as_str()))
        } else {
            None
        }
    }

    /// Normalize all search paths of this ELF against `origin`, keeping
    /// declaration order; `runpath` takes precedence over `rpath`.
    #[verifier::loop_isolation(false)]
    pub fn normalize_paths(&self, origin: &str) -> (r: Vec<String>)
        ensures
            r.deep_view() == normalize_paths_of(self@, origin@),
    {
        let ghost f = normalize_entry(origin@);
        let chosen: &Vec<String> = if self.runpath.len() > 0 {
            &self.runpath
        } else {
            &self.rpath
        };
        proof {
            assert(chosen.deep_view() == chosen_search_list(self@));
        }
        let mut out: Vec<String> = Vec::new();
        let mut i: usize = 0;
        proof {
            assert(chosen.deep_view().take(0) =~~= Seq::<Seq<char>>::empty());
            assert(out.deep_view() =~~= Seq::<Seq<char>>::empty().filter_map(f));
        }
        while i < chosen.len()
            invariant
                i <= chosen.len(),
                out.deep_view() =~~= chosen.deep_view().take(i as int).filter_map(f),
            decreases chosen.len() - i,
        {
            let ghost prefix_seq = chosen.deep_view().take(i as int);
            let ghost elem = chosen.deep_view()[i as int];
            proof {
                assert(chosen.deep_view().take(i + 1).drop_last() =~~= prefix_seq);
                assert(chosen.deep_view().take(i + 1).last() == elem);
            }
            let ghost preout = out.deep_view();
            match Elf::normalize_path(origin, chosen[i].as_str()) {
                Some(p) => {
                    let ghost pv = p@;
                    out.push(p);
                    proof {
                        assert(out.deep_view() =~~= preout.push(pv));
                        assert(chosen.deep_view().take(i + 1).filter_map(f)
                            =~~= prefix_seq.filter_map(f).push(pv));
                    }
                },
                None => {
                    proof {
                        assert(chosen.deep_view().take(i + 1).filter_map(f)
                            =~~= prefix_seq.filter_map(f));
                    }
                },
            }
            i = i + 1;
        }
        proof {
            assert(chosen.deep_view().take(chosen.len() as int) =~~= chosen.deep_view());
        }
        out
    }
}

/// ASCII lowercase of one character.
pub open spec fn lower_char(c: char) -> char {
    if 65 <= c as u32 && c as u32 <= 90 {
        (((c as u32) + 32) as u8) as char
    } else {
        c
    }
}

/// ASCII lowercase of a character sequence.
pub open spec fn lower_seq(s: Seq<char>) -> Seq<char> {
    s.map_values(|c: char| lower_char(c))
}

fn lower_char_exec(c: char) -> (r: char)
    ensures
        r == lower_char(c),
{
    if c >= 'A' && c <= 'Z' {
        ((c as u8) + 32) as char
    } else {
        c
    }
}

/// Whether `a`, lowercased, equals the (already lowercase) `lit`.
fn eq_lowered(a: &str, lit: &str) -> (r: bool)
    ensures
        r == (lower_seq(a@) == lit@),
{
    let alen = a.unicode_len();
    let llen = lit.unicode_len();
    if alen != llen {
        return false;
    }
    let mut i: usize = 0;
    while i < alen
        invariant
            i <= alen,
            alen == a@.len(),
            alen == lit@.len(),
            forall|j: int| 0 <= j < i ==> lower_char(a@[j]) == lit@[j],
        decreases alen - i,
    {
        if lower_char_exec(a.get_char(i)) != lit.get_char(i) {
            proof {
                assert(lower_seq(a@)[i as int] == lower_char(a@[i as int]));
            }
            return false;
        }
        i = i + 1;
    }
    proof {
        assert(lower_seq(a@) =~= lit@);
    }
    true
}

/// The extension of a path: the part of the base name after its last
/// `.`, absent when the base name has no `.` or only a leading one.
pub open spec fn extension_of(p: Seq<char>) -> Option<Seq<char>> {
    let b = crate::strutil::base_name_of(p);
    match crate::strutil::rfind_seq(b, '.') {
        Some(i) => if i > 0 {
            Some(b.skip(i + 1))
        } else {
            None
        },
        None => None,
    }
}

/// Extensions of files that cannot be ELF objects: text, markup,
/// scripts, archives, media and database formats, matched after ASCII
/// lowercasing.
pub open spec fn skipped_extension(e: Seq<char>) -> bool {
    ||| e == "txt"@ ||| e == "md"@ ||| e == "json"@ ||| e == "yaml"@ ||| e == "yml"@
    ||| e == "conf"@ ||| e == "cfg"@ ||| e == "ini"@ ||| e == "toml"@ ||| e == "xml"@
    ||| e == "html"@ ||| e == "css"@ ||| e == "js"@ ||| e == "py"@ ||| e == "sh"@
    ||| e == "bash"@ ||| e == "zsh"@ ||| e == "fish"@ ||| e == "csh"@ ||| e == "ksh"@
    ||| e == "pl"@ ||| e == "rb"@ ||| e == "php"@ ||| e == "lua"@ ||| e == "tcl"@
    ||| e == "awk"@ ||| e == "sed"@ ||| e == "perl"@ ||| e == "pm"@ ||| e == "pod"@
    ||| e == "gz"@ ||| e == "bz2"@ ||| e == "xz"@ ||| e == "zst"@ ||| e == "zip"@
    ||| e == "tar"@ ||| e == "rpm"@ ||| e == "deb"@ ||| e == "dpkg"@ ||| e == "png"@
    ||| e == "jpg"@ ||| e == "jpeg"@ ||| e == "gif"@ ||| e == "svg"@ ||| e == "ico"@
    ||| e == "bmp"@ ||| e == "webp"@ ||| e == "tiff"@ ||| e == "pdf"@ ||| e == "ps"@
    ||| e == "eps"@ ||| e == "dvi"@ ||| e == "tex"@ ||| e == "rtf"@ ||| e == "odt"@
    ||| e == "doc"@ ||| e == "docx"@ ||| e == "mp3"@ ||| e == "mp4"@ ||| e == "avi"@
    ||| e == "mkv"@ ||| e == "mov"@ ||| e == "wav"@ ||| e == "flac"@ ||| e == "ogg"@
    ||| e == "m4a"@ ||| e == "db"@ ||| e == "sqlite"@ ||| e == "sqlite3"@ ||| e == "db3"@
}

/// Whether the path's extension, lowercased, marks a file that need not
/// be opened because it cannot be ELF.
pub open spec fn invalid_extension_of(p: Seq<char>) -> bool {
    match extension_of(p) {
        Some(e) => skipped_extension(lower_seq(e)),
        None => false,
    }
}

fn skipped_extension_exec(e: &str) -> (r: bool)
    ensures
        r == skipped_extension(lower_seq(e@)),
{
    eq_lowered(e, "txt") || eq_lowered(e, "md") || eq_lowered(e, "json")
        || eq_lowered(e, "yaml") || eq_lowered(e, "yml") || eq_lowered(e, "conf")
        || eq_lowered(e, "cfg") || eq_lowered(e, "ini") || eq_lowered(e, "toml")
        || eq_lowered(e, "xml") || eq_lowered(e, "html") || eq_lowered(e, "css")
        || eq_lowered(e, "js") || eq_lowered(e, "py") || eq_lowered(e, "sh")
        || eq_lowered(e, "bash") || eq_lowered(e, "zsh") || eq_lowered(e, "fish")
        || eq_lowered(e, "csh") || eq_lowered(e, "ksh") || eq_lowered(e, "pl")
        || eq_lowered(e, "rb") || eq_lowered(e, "php") || eq_lowered(e, "lua")
        || eq_lowered(e, "tcl") || eq_lowered(e, "awk") || eq_lowered(e, "sed")
        || eq_lowered(e, "perl") || eq_lowered(e, "pm") || eq_lowered(e, "pod")
        || eq_lowered(e, "gz") || eq_lowered(e, "bz2") || eq_lowered(e, "xz")
        || eq_lowered(e, "zst") || eq_lowered(e, "zip") || eq_lowered(e, "tar")
        || eq_lowered(e, "rpm") || eq_lowered(e, "deb") || eq_lowered(e, "dpkg")
        || eq_lowered(e, "png") || eq_lowered(e, "jpg") || eq_lowered(e, "jpeg")
        || eq_lowered(e, "gif") || eq_lowered(e, "svg") || eq_lowered(e, "ico")
        || eq_lowered(e, "bmp") || eq_lowered(e, "webp") || eq_lowered(e, "tiff")
        || eq_lowered(e, "pdf") || eq_lowered(e, "ps") || eq_lowered(e, "eps")
        || eq_lowered(e, "dvi") || eq_lowered(e, "tex") || eq_lowered(e, "rtf")
        || eq_lowered(e, "odt") || eq_lowered(e, "doc") || eq_lowered(e, "docx")
        || eq_lowered(e, "mp3") || eq_lowered(e, "mp4") || eq_lowered(e, "avi")
        || eq_lowered(e, "mkv") || eq_lowered(e, "mov") || eq_lowered(e, "wav")
        || eq_lowered(e, "flac") || eq_lowered(e, "ogg") || eq_lowered(e, "m4a")
        || eq_lowered(e, "db") || eq_lowered(e, "sqlite") || eq_lowered(e, "sqlite3")
        || eq_lowered(e, "db3")
}

impl Elf {
    /// Whether a file path should be skipped before opening, judged by
    /// its extension alone.
    pub fn is_invalid_extension(path: &str) -> (r: bool)
        ensures
            r == invalid_extension_of(path@),
    {
        let b = crate::strutil::base_name(path);
        let blen = b.as_str().unicode_len();
        match crate::strutil::rfind_char(b.as_str(), '.') {
            Some(i) => {
                if i > 0 {
                    proof {
                        crate::strutil::lemma_rfind_in_range(b@, '.');
                    }
                    let ext = b.as_str().substring_char(i + 1, blen);
                    proof {
                        assert(ext@ =~= b@.skip(i + 1));
                    }
                    skipped_extension_exec(ext)
                } else {
                    false
                }
            },
            None => false,
        }
    }
}

/// Errors of ELF parsing.  The first two are benign in package scanning
/// (the file is simply not an ELF object); the others are fatal.
#[derive(Debug, Clone, PartialEq, Eq)]
pub enum ElfError {
    FileTooSmall,
    NotElfFile,
    ParseFailed,
    UnknownElfType,
    InvalidPaths { paths: Vec<String> },
}

/// Mathematical model of an ELF parsing error.
pub enum ElfErrorView {
    FileTooSmall,
    NotElfFile,
    ParseFailed,
    UnknownElfType,
    InvalidPaths(Seq<Seq<char>>),
}

impl View for ElfError {
    type V = ElfErrorView;

    open spec fn view(&self) -> ElfErrorView {
        match self {
            ElfError::FileTooSmall => ElfErrorView::FileTooSmall,
            ElfError::NotElfFile => ElfErrorView::NotElfFile,
            ElfError::ParseFailed => ElfErrorView::ParseFailed,
            ElfError::UnknownElfType => ElfErrorView::UnknownElfType,
            ElfError::InvalidPaths { paths } => ElfErrorView::InvalidPaths(paths.deep_view()),
        }
    }
}

/// Mathematical model of a raw dynamic section: object type, `DT_NEEDED`
/// names, and the unsplit `DT_RPATH` / `DT_RUNPATH` strings, in file
/// order.
pub struct DynView {
    pub e_type: u16,
    pub needed: Seq<Seq<char>>,
    pub rpath: Seq<Seq<char>>,
    pub runpath: Seq<Seq<char>>,
}

/// Raw dynamic-section data as handed back by the ELF container parser.
pub struct RawDynamic {
    pub e_type: u16,
    pub needed: Vec<String>,
    pub rpath: Vec<String>,
    pub runpath: Vec<String>,
}

impl View for RawDynamic {
    type V = DynView;

    open spec fn view(&self) -> DynView {
        DynView {
            e_type: self.e_type,
            needed: self.needed.deep_view(),
            rpath: self.rpath.deep_view(),
            runpath: self.runpath.deep_view(),
        }
    }
}

/// What the ELF container parser extracts from a well-formed ELF file:
/// the header's object type and the string values of the `DT_NEEDED`,
/// `DT_RPATH` and `DT_RUNPATH` dynamic entries, in file order; `None`
/// when the bytes do not decode as an ELF container.
pub uninterp spec fn elf_dynamic_of(bytes: Seq<u8>) -> Option<DynView>;

/// Relies on goblin's ELF parser (`goblin::elf::Elf::parse` and its
/// dynamic string table): the decoded header type and dynamic entries
/// are a function of the file bytes alone.
#[verifier::external_body]
fn parse_dynamic(bytes: &Vec<u8>) -> (r: Option<RawDynamic>)
    ensures
        match r {
            Some(d) => elf_dynamic_of(bytes@) == Some(d@),
            None => elf_dynamic_of(bytes@) is None,
        },
{
    let elf = goblin::elf::Elf::parse(bytes).ok()?;
    let (mut needed, mut rpath, mut runpath) = (Vec::new(), Vec::new(), Vec::new());
    for entry in elf.dynamic.iter().flat_map(|d| d.dyns.iter()) {
        let s = elf.dynstrtab.get_at(entry.d_val as usize);
        match (entry.d_tag, s) {
            (DT_NEEDED, Some(s)) => needed.push(s.to_string()),
            (DT_RPATH, Some(s)) => rpath.push(s.to_string()),
            (DT_RUNPATH, Some(s)) => runpath.push(s.to_string()),
            _ => {},
        }
    }
    Some(RawDynamic { e_type: elf.header.e_type, needed, rpath, runpath })
}

/// The ELF magic: 0x7f 'E' 'L' 'F'.
pub open spec fn elf_magic_of(bytes: Seq<u8>) -> bool {
    bytes.len() >= 4 && bytes[0] == 0x7fu8 && bytes[1] == 0x45u8 && bytes[2] == 0x4cu8 && bytes[3]
        == 0x46u8
}

/// The object kinds this analysis understands.
pub open spec fn known_elf_type(t: u16) -> bool {
    t == 0 || t == 1 || t == 2 || t == 3 || t == 4
}

/// The object kind named by the header's type field.
pub open spec fn kind_of(t: u16) -> ElfType {
    if t == 0 {
        ElfType::NoneType
    } else if t == 1 {
        ElfType::Relocatable
    } else if t == 2 {
        ElfType::Executable
    } else if t == 3 {
        ElfType::SharedObject
    } else {
        ElfType::Core
    }
}

/// One raw search-path string, split on `:` with empty components
/// dropped.
pub open spec fn colon_segments(x: Seq<char>) -> Seq<Seq<char>> {
    crate::strutil::split_seq(x, ':').filter(|s: Seq<char>| s.len() > 0)
}

/// All raw search-path strings split and concatenated, in file order.
pub open spec fn split_entries(xs: Seq<Seq<char>>) -> Seq<Seq<char>>
    decreases xs.len(),
{
    if xs.len() == 0 {
        Seq::<Seq<char>>::empty()
    } else {
        split_entries(xs.drop_last()) + colon_segments(xs.last())
    }
}

#[verifier::loop_isolation(false)]
fn split_entries_exec(xs: &Vec<String>) -> (r: Vec<String>)
    ensures
        r.deep_view() == split_entries(xs.deep_view()),
{
    let mut out: Vec<String> = Vec::new();
    let mut i: usize = 0;
    proof {
        assert(xs.deep_view().take(0) =~~= Seq::<Seq<char>>::empty());
        assert(out.deep_view() =~~= split_entries(xs.deep_view().take(0)));
    }
    while i < xs.len()
        invariant
            i <= xs.len(),
            out.deep_view() =~~= split_entries(xs.deep_view().take(i as int)),
        decreases xs.len() - i,
    {
        let ghost prefix_seq = xs.deep_view().take(i as int);
        let ghost elem = xs.deep_view()[i as int];
        proof {
            assert(xs.deep_view().take(i + 1).drop_last() =~~= prefix_seq);
            assert(xs.deep_view().take(i + 1).last() == elem);
        }
        let ghost preout = out.deep_view();
        let mut part = crate::strutil::split_nonempty(xs[i].as_str(), ':');
        let ghost partv = part.deep_view();
        out.append(&mut part);
        proof {
            assert(out.deep_view() =~~= preout + partv);
            assert(partv == colon_segments(elem));
            assert(out.deep_view() =~~= split_entries(xs.deep_view().take(i + 1)));
        }
        i = i + 1;
    }
    proof {
        assert(xs.deep_view().take(xs.len() as int) =~~= xs.deep_view());
    }
    out
}

/// The model of the ELF record built from a raw dynamic section.
pub open spec fn elf_of_dyn(d: DynView) -> ElfView {
    ElfView {
        kind: kind_of(d.e_type),
        needed: d.needed,
        rpath: split_entries(d.rpath),
        runpath: split_entries(d.runpath),
    }
}

/// The full decision of ELF reading on a file's bytes: the parsed and
/// validated record, or the error that stops it.
pub open spec fn elf_result_of(bytes: Seq<u8>) -> Result<ElfView, ElfErrorView> {
    if bytes.len() < 64 {
        Err(ElfErrorView::FileTooSmall)
    } else if !elf_magic_of(bytes) {
        Err(ElfErrorView::NotElfFile)
    } else {
        match elf_dynamic_of(bytes) {
            None => Err(ElfErrorView::ParseFailed),
            Some(d) => if !known_elf_type(d.e_type) {
                Err(ElfErrorView::UnknownElfType)
            } else {
                match validate_of(elf_of_dyn(d).rpath, elf_of_dyn(d).runpath) {
                    Err(m) => Err(ElfErrorView::InvalidPaths(m)),
                    Ok(_) => Ok(elf_of_dyn(d)),
                }
            },
        }
    }
}

impl Elf {
    /// Parse an ELF record out of a file's bytes and validate its search
    /// paths: too-small or wrongly-tagged files are not ELF objects;
    /// decode failures, unknown object kinds, and rejected search paths
    /// are errors of their own.
    pub fn from_bytes(bytes: &Vec<u8>) -> (r: Result<Elf, ElfError>)
        ensures
            match r {
                Ok(elf) => elf_result_of(bytes@) == Ok::<ElfView, ElfErrorView>(elf@),
                Err(e) => elf_result_of(bytes@) == Err::<ElfView, ElfErrorView>(e@),
            },
    {
        if bytes.len() < 64 {
            return Err(ElfError::FileTooSmall);
        }
        if !(bytes[0] == 0x7f && bytes[1] == 0x45 && bytes[2] == 0x4c && bytes[3] == 0x46) {
            return Err(ElfError::NotElfFile);
        }
        let d = match parse_dynamic(bytes) {
            Some(d) => d,
            None => {
                return Err(ElfError::ParseFailed);
            },
        };
        let kind = if d.e_type == 0 {
            ElfType::NoneType
        } else if d.e_type == 1 {
            ElfType::Relocatable
        } else if d.e_type == 2 {
            ElfType::Executable
        } else if d.e_type == 3 {
            ElfType::SharedObject
        } else if d.e_type == 4 {
            ElfType::Core
        } else {
            return Err(ElfError::UnknownElfType);
        };
        let rpath = split_entries_exec(&d.rpath);
        let runpath = split_entries_exec(&d.runpath);
        match Elf::validate(&rpath, &runpath) {
            Err(paths) => Err(ElfError::InvalidPaths { paths }),
            Ok(_) => Ok(Elf { kind, dependencies: d.needed, rpath, runpath }),
        }
    }
}

} // verus!
