//! Which workspace files a search or a text rename looks at: by extension,
//! and by include and exclude globs.

use vstd::prelude::*;
use vstd::string::*;
use crate::commands::FindArgs;
use crate::plan::TextRenameOp;
use crate::text::{str_eq, string_views};

verus! {

broadcast use vstd::seq::group_seq_axioms;

/// What `std::path::Path::extension` gives for `path`, as text; `None`
/// where it gives none or the extension is not valid UTF-8.
pub uninterp spec fn std_extension(path: Seq<char>) -> Option<Seq<char>>;

/// `Path::new(path).extension()`, as text; the result is named `std_extension`.
#[verifier::external_body]
pub(crate) fn path_extension(path: &str) -> (r: Option<String>)
    ensures
        match r {
            Some(e) => std_extension(path@) == Some(e@),
            None => std_extension(path@) is None,
        },
{
    std::path::Path::new(path).extension().and_then(|e| e.to_str()).map(|e| e.to_owned())
}

/// Whether `globset::Glob::new` accepts `glob`.
pub uninterp spec fn glob_parses(glob: Seq<char>) -> bool;

/// What a `globset::GlobSet` built from `globs` answers for `path`
/// (`is_match`); `None` where a glob does not parse or the set does not build.
pub uninterp spec fn globset_match(globs: Seq<Seq<char>>, path: Seq<char>) -> Option<bool>;

/// `globset::Glob::new(glob).is_ok()`; named `glob_parses`.
#[verifier::external_body]
fn glob_valid(glob: &str) -> (r: bool)
    ensures
        r == glob_parses(glob@),
{
    globset::Glob::new(glob).is_ok()
}

/// Builds a `globset::GlobSet` from `globs` and asks it about `path`; the
/// answer is named `globset_match`.
#[verifier::external_body]
fn globset_is_match(globs: &Vec<String>, path: &str) -> (r: Option<bool>)
    ensures
        r == globset_match(string_views(globs@), path@),
{
    let mut builder = globset::GlobSetBuilder::new();
    for g in globs {
        builder.add(globset::Glob::new(g).ok()?);
    }
    builder.build().ok().map(|set| set.is_match(path))
}

/// What an `ignore::overrides::Override` rooted at `root` and built from
/// `globs` says of the file `rel`: whether it holds no glob (`is_empty`), and
/// whether `matched(rel, false)` is a whitelist match; `None` where it does
/// not build.
pub uninterp spec fn override_answer(root: Seq<char>, globs: Seq<Seq<char>>, rel: Seq<char>) -> Option<(bool, bool)>;

/// Builds an `ignore::overrides::Override` from `globs` and asks it about the
/// file `rel`; the answer is named `override_answer`.
#[verifier::external_body]
fn override_query(root: &str, globs: &Vec<String>, rel: &str) -> (r: Option<(bool, bool)>)
    ensures
        r == override_answer(root@, string_views(globs@), rel@),
{
    let mut builder = ignore::overrides::OverrideBuilder::new(root);
    for g in globs {
        builder.add(g).ok()?;
    }
    let ov = builder.build().ok()?;
    Some((ov.is_empty(), ov.matched(rel, false).is_whitelist()))
}

/// The globs of `ps` that parse, in order.
pub open spec fn parsing_globs(ps: Seq<Seq<char>>) -> Seq<Seq<char>>
    decreases ps.len(),
{
    if ps.len() == 0 {
        seq![]
    } else {
        parsing_globs(ps.drop_last()) + if glob_parses(ps.last()) {
            seq![ps.last()]
        } else {
            seq![]
        }
    }
}

/// A path matches a list of globs when the set of those that parse matches it.
pub open spec fn matches_any_spec(path: Seq<char>, patterns: Seq<Seq<char>>) -> bool {
    match globset_match(parsing_globs(patterns), path) {
        Some(b) => b,
        None => false,
    }
}

/// Whether `path` matches any of `patterns`; globs that do not parse are
/// left out.
pub fn path_matches_any(path: &str, patterns: &Vec<String>) -> (r: bool)
    ensures
        r == matches_any_spec(path@, string_views(patterns@)),
{
    let ghost pv = string_views(patterns@);
    let mut valid: Vec<String> = Vec::new();
    let mut i: usize = 0;
    assert(pv.take(0) =~= Seq::<Seq<char>>::empty());
    while i < patterns.len()
        invariant
            pv == string_views(patterns@),
            i <= pv.len(),
            string_views(valid@) == parsing_globs(pv.take(i as int)),
        decreases pv.len() - i,
    {
        assert(pv.take(i + 1).drop_last() =~= pv.take(i as int));
        assert(pv.take(i + 1).last() == patterns@[i as int]@);
        let ghost before = string_views(valid@);
        if glob_valid(patterns[i].as_str()) {
            valid.push(patterns[i].clone());
            assert(string_views(valid@) =~= before + seq![patterns@[i as int]@]);
        } else {
            assert(before + Seq::<Seq<char>>::empty() =~= before);
        }
        i = i + 1;
    }
    assert(pv.take(i as int) =~= pv);
    match globset_is_match(&valid, path) {
        Some(b) => b,
        None => false,
    }
}

/// A file passes the extension filter of a search when the filter is empty
/// or lists its extension.
pub open spec fn ext_allowed(file: Seq<char>, allowed: Seq<Seq<char>>) -> bool {
    allowed.len() == 0 || match std_extension(file) {
        Some(e) => allowed.contains(e),
        None => false,
    }
}

/// Whether `file` passes the extension filter `allowed`.
pub fn extension_matches(file: &str, allowed: &Vec<String>) -> (r: bool)
    ensures
        r == ext_allowed(file@, string_views(allowed@)),
{
    if allowed.len() == 0 {
        return true;
    }
    match path_extension(file) {
        Some(ext) => {
            let ghost av = string_views(allowed@);
            let mut i: usize = 0;
            while i < allowed.len()
                invariant
                    av == string_views(allowed@),
                    std_extension(file@) == Some(ext@),
                    av.len() > 0,
                    i <= av.len(),
                    forall|j: int| 0 <= j < i ==> av[j] != ext@,
                decreases av.len() - i,
            {
                if str_eq(allowed[i].as_str(), ext.as_str()) {
                    assert(av[i as int] == ext@);
                    assert(av.contains(ext@));
                    return true;
                }
                i = i + 1;
            }
            assert(!av.contains(ext@));
            false
        },
        None => false,
    }
}

/// The files a search reads: those passing the extension filter, matching an
/// include glob (when there are any), and matching no exclude glob.
pub open spec fn find_selects_spec(file: Seq<char>, file_types: Seq<Seq<char>>, includes: Seq<Seq<char>>, exclude: Seq<Seq<char>>) -> bool {
    &&& ext_allowed(file, file_types)
    &&& (includes.len() == 0 || matches_any_spec(file, includes))
    &&& (exclude.len() == 0 || !matches_any_spec(file, exclude))
}

pub open spec fn find_selects_args(file: Seq<char>, a: FindArgs) -> bool {
    find_selects_spec(file, string_views(a.file_types@), string_views(a.includes@), string_views(a.exclude@))
}

/// Whether a search with `args` reads `file`.
pub fn find_selects(file: &str, args: &FindArgs) -> (r: bool)
    ensures
        r == find_selects_args(file@, *args),
{
    if !extension_matches(file, &args.file_types) {
        return false;
    }
    if args.includes.len() > 0 && !path_matches_any(file, &args.includes) {
        return false;
    }
    if args.exclude.len() > 0 && path_matches_any(file, &args.exclude) {
        return false;
    }
    true
}

/// `t` without one leading `.`.
pub open spec fn strip_dot(t: Seq<char>) -> Seq<char> {
    if t.len() > 0 && t[0] == '.' {
        t.drop_first()
    } else {
        t
    }
}

/// A file a rename reads has an extension that one of `file_types` names,
/// with or without its leading dot.
pub open spec fn ext_listed(path: Seq<char>, file_types: Seq<Seq<char>>) -> bool {
    match std_extension(path) {
        Some(e) => exists|j: int| 0 <= j < file_types.len() && strip_dot(#[trigger] file_types[j]) == e,
        None => false,
    }
}

/// Whether the extension of `path` is one of `file_types`.
pub fn has_allowed_extension(path: &str, file_types: &Vec<String>) -> (r: bool)
    ensures
        r == ext_listed(path@, string_views(file_types@)),
{
    match path_extension(path) {
        Some(ext) => {
            let ghost tv = string_views(file_types@);
            let mut i: usize = 0;
            while i < file_types.len()
                invariant
                    tv == string_views(file_types@),
                    std_extension(path@) == Some(ext@),
                    i <= tv.len(),
                    forall|j: int| 0 <= j < i ==> strip_dot(#[trigger] tv[j]) != ext@,
                decreases tv.len() - i,
            {
                let t = file_types[i].as_str();
                let n = t.unicode_len();
                let bare = if n > 0 && t.get_char(0) == '.' {
                    t.substring_char(1, n)
                } else {
                    t
                };
                assert(bare@ == strip_dot(tv[i as int])) by {
                    if n > 0 && t@[0] == '.' {
                        assert(bare@ =~= t@.drop_first());
                    }
                }
                if str_eq(bare, ext.as_str()) {
                    assert(strip_dot(tv[i as int]) == ext@);
                    assert(0 <= i < tv.len() && strip_dot(tv[i as int]) == ext@);
                    return true;
                }
                i = i + 1;
            }
            false
        },
        None => false,
    }
}

/// The files a rename reads: an extension it lists, inside its include globs
/// (when they hold any glob) and outside its exclude globs.
pub open spec fn rename_selects_spec(root: Seq<char>, rel: Seq<char>, op: TextRenameOp) -> bool {
    &&& ext_listed(rel, string_views(op.file_types@))
    &&& match override_answer(root, string_views(op.include_paths@), rel) {
        Some((empty, white)) => empty || white,
        None => false,
    }
    &&& match override_answer(root, string_views(op.exclude_paths@), rel) {
        Some((empty, white)) => empty || !white,
        None => false,
    }
}

/// Whether a rename reads the file `rel` (relative to the workspace `root`).
pub fn rename_selects(root: &str, rel: &str, op: &TextRenameOp) -> (r: bool)
    ensures
        r == rename_selects_spec(root@, rel@, *op),
{
    if !has_allowed_extension(rel, &op.file_types) {
        return false;
    }
    let inc = match override_query(root, &op.include_paths, rel) {
        Some((empty, white)) => empty || white,
        None => false,
    };
    if !inc {
        return false;
    }
    match override_query(root, &op.exclude_paths, rel) {
        Some((empty, white)) => empty || !white,
        None => false,
    }
}

} // verus!
