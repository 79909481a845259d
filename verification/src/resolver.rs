//! Turning raw reference paths into canonical workspace-relative paths.
//!
//! Standard links resolve relative to the directory of the file holding them;
//! wiki links resolve by a workspace-wide scan for a file with the same stem.

use vstd::prelude::*;
use vstd::string::*;
use crate::model::CanonicalPath;
use crate::text::{
    chars_of, ends_with_md, find_byte, find_byte_exec, has_suffix, lemma_find_byte, lemma_rfind_byte,
    pat_md, push_char, rfind_byte, rfind_byte_exec, str_eq, substr, bytes_eq,
};

verus! {

broadcast use vstd::seq::group_seq_axioms;

// ───────────────────────── lexical path cleaning ─────────────────────────

/// First index of `c` in `s`, or `s.len()`.
pub open spec fn cfind(s: Seq<char>, c: char) -> int
    decreases s.len(),
{
    if s.len() == 0 {
        0
    } else if s[0] == c {
        0
    } else {
        1 + cfind(s.drop_first(), c)
    }
}

/// The `/`-separated segments of `s`, left to right (empty ones included).
pub open spec fn split_segs(s: Seq<char>) -> Seq<Seq<char>>
    decreases s.len(),
{
    let i = cfind(s, '/');
    if 0 <= i < s.len() {
        seq![s.take(i)] + split_segs(s.skip(i + 1))
    } else {
        seq![s]
    }
}

/// One step of lexical cleaning: drop empty and `.` segments, let `..` remove
/// the preceding normal segment (or vanish right after the root), keep other `..`.
pub open spec fn clean_step(out: Seq<Seq<char>>, seg: Seq<char>, rooted: bool) -> Seq<Seq<char>> {
    if seg.len() == 0 || seg == seq!['.'] {
        out
    } else if seg == seq!['.', '.'] {
        if out.len() > 0 && out.last() != seq!['.', '.'] {
            out.drop_last()
        } else if rooted {
            out
        } else {
            out.push(seg)
        }
    } else {
        out.push(seg)
    }
}

pub open spec fn clean_fold(segs: Seq<Seq<char>>, rooted: bool) -> Seq<Seq<char>>
    decreases segs.len(),
{
    if segs.len() == 0 {
        seq![]
    } else {
        clean_step(clean_fold(segs.drop_last(), rooted), segs.last(), rooted)
    }
}

/// Segments joined with `/`.
pub open spec fn join_segs(segs: Seq<Seq<char>>) -> Seq<char>
    decreases segs.len(),
{
    if segs.len() == 0 {
        seq![]
    } else if segs.len() == 1 {
        segs[0]
    } else {
        join_segs(segs.drop_last()) + seq!['/'] + segs.last()
    }
}

/// Lexical cleaning as `path_clean` documents it: multiple slashes collapse,
/// `.` elements vanish, `..` eliminates the element before it, a rooted path
/// drops leading `..`, a relative path keeps them, and an empty result is `.`.
pub open spec fn clean_spec(s: Seq<char>) -> Seq<char> {
    let rooted = s.len() > 0 && s[0] == '/';
    let out = clean_fold(split_segs(s), rooted);
    if rooted {
        seq!['/'] + join_segs(out)
    } else if out.len() == 0 {
        seq!['.']
    } else {
        join_segs(out)
    }
}

/// Calls `path_clean::clean`, documented as the lexical cleaning of `clean_spec`.
#[verifier::external_body]
fn clean_path(p: &str) -> (r: String)
    ensures
        r@ == clean_spec(p@),
{
    path_clean::clean(p).to_string_lossy().into_owned()
}

/// What `std::path::Path::parent` returns for a path, as text.
pub uninterp spec fn std_path_parent(p: Seq<char>) -> Option<Seq<char>>;

pub open spec fn opt_text(o: Option<String>) -> Option<Seq<char>> {
    match o {
        Some(s) => Some(s@),
        None => None,
    }
}

/// A plain relative path: `/`-separated parts, none empty, `.` or `..`.
pub open spec fn plain_rel_path(p: Seq<char>) -> bool {
    forall|i: int|
        0 <= i < split_segs(p).len() ==> (#[trigger] split_segs(p)[i]).len() > 0 && split_segs(p)[i] != seq!['.']
            && split_segs(p)[i] != seq!['.', '.']
}

/// Calls `std::path::Path::parent` on `p`; the result is named
/// `std_path_parent`. Of a plain relative path the documentation gives the
/// path without its final component: the parts before the last, joined
/// (empty for a single part).
#[verifier::external_body]
pub(crate) fn path_parent(p: &str) -> (r: Option<String>)
    ensures
        match r {
            Some(s) => std_path_parent(p@) == Some(s@),
            None => std_path_parent(p@) is None,
        },
        plain_rel_path(p@) ==> opt_text(r) == Some(join_segs(split_segs(p@).drop_last())),
{
    std::path::Path::new(p).parent().map(|q| q.to_string_lossy().into_owned())
}

// ───────────────────────── standard links ─────────────────────────

/// `s` with every backslash replaced by a slash.
pub open spec fn slashes_forward(s: Seq<char>) -> Seq<char> {
    Seq::new(s.len(), |i: int| if s[i] == '\\' { '/' } else { s[i] })
}

/// `s` without a leading `./`.
pub open spec fn strip_dot_slash(s: Seq<char>) -> Seq<char> {
    if s.len() >= 2 && s[0] == '.' && s[1] == '/' {
        s.skip(2)
    } else {
        s
    }
}

/// The canonical form of a cleaned path: forward slashes, no leading `./`.
pub open spec fn canonical_of_cleaned(s: Seq<char>) -> Seq<char> {
    strip_dot_slash(slashes_forward(s))
}

/// `raw` up to its first `#`.
pub open spec fn without_anchor(raw: Seq<char>) -> Seq<char> {
    let b = vstd::utf8::encode_utf8(raw);
    chars_of(b.subrange(0, find_byte(b, 0, b.len() as int, 35u8)))
}

/// `path` joined onto `parent` (no separator when `parent` is empty).
pub open spec fn join_onto(parent: Seq<char>, path: Seq<char>) -> Seq<char> {
    if parent.len() == 0 {
        path
    } else {
        parent + seq!['/'] + path
    }
}

/// `s` without the leading `../` steps of a path that climbs above the
/// workspace root (a lone `..` leaves the root itself, `.`).
pub open spec fn drop_up_steps(s: Seq<char>) -> Seq<char>
    decreases s.len(),
{
    if s.len() >= 3 && s[0] == '.' && s[1] == '.' && s[2] == '/' {
        drop_up_steps(s.skip(3))
    } else if s == seq!['.', '.'] {
        seq!['.']
    } else {
        s
    }
}

/// The target of a standard link `raw` written in a source whose path is
/// plain: its parent is the parts before the last.
pub open spec fn form1_plain(source: Seq<char>, raw: Seq<char>) -> Seq<char> {
    drop_up_steps(
        canonical_of_cleaned(clean_spec(join_onto(join_segs(split_segs(source).drop_last()), without_anchor(raw)))),
    )
}

/// The canonical path of a standard link `raw` written in `source`: a link
/// that climbs above the root stops at the root.
pub open spec fn form1_target(source: Seq<char>, raw: Seq<char>) -> Seq<char> {
    let parent = match std_path_parent(source) {
        Some(p) => p,
        None => seq![],
    };
    drop_up_steps(canonical_of_cleaned(clean_spec(join_onto(parent, without_anchor(raw)))))
}

fn drop_up_steps_exec(s: &str) -> (r: String)
    ensures
        r@ == drop_up_steps(s@),
{
    let n = s.unicode_len();
    let mut i: usize = 0;
    assert(s@.skip(0) =~= s@);
    while 3 <= n - i && s.get_char(i) == '.' && s.get_char(i + 1) == '.' && s.get_char(i + 2) == '/'
        invariant
            n == s@.len(),
            i <= n,
            drop_up_steps(s@.skip(i as int)) == drop_up_steps(s@),
        decreases n - i,
    {
        assert(s@.skip(i as int).skip(3) =~= s@.skip(i + 3));
        i = i + 3;
    }
    let rest = s.substring_char(i, n);
    assert(rest@ =~= s@.skip(i as int));
    if n - i == 2 && s.get_char(i) == '.' && s.get_char(i + 1) == '.' {
        assert(rest@ =~= seq!['.', '.']);
        let d = ".";
        proof {
            reveal_strlit(".");
        }
        assert(d@ =~= seq!['.']);
        return d.to_owned();
    }
    rest.to_owned()
}

/// Forward slashes and no leading `./`, applied to a cleaned path.
pub fn canonical_from_cleaned(cleaned: &str) -> (r: String)
    ensures
        r@ == canonical_of_cleaned(cleaned@),
{
    let n = cleaned.unicode_len();
    let mut out = String::new();
    let mut i: usize = 0;
    while i < n
        invariant
            n == cleaned@.len(),
            0 <= i <= n,
            out@ =~= slashes_forward(cleaned@).take(i as int),
        decreases n - i,
    {
        let c = cleaned.get_char(i);
        push_char(&mut out, if c == '\\' { '/' } else { c });
        i = i + 1;
    }
    assert(out@ =~= slashes_forward(cleaned@));
    let m = out.as_str().unicode_len();
    if m >= 2 && out.as_str().get_char(0) == '.' && out.as_str().get_char(1) == '/' {
        out.as_str().substring_char(2, m).to_owned()
    } else {
        out
    }
}

/// Resolve a standard link written in `source_file` to a canonical path:
/// drop the `#anchor`, join onto the directory of `source_file`, clean
/// lexically, use forward slashes, drop a leading `./`, and stop at the
/// root a link that climbs above it.
pub fn resolve_form1(source_file: &CanonicalPath, raw_path: &str) -> (r: CanonicalPath)
    ensures
        r@ == form1_target(source_file@, raw_path@),
        plain_rel_path(source_file@) ==> r@ == form1_plain(source_file@, raw_path@),
{
    let rb = raw_path.as_bytes();
    let h = find_byte_exec(rb, 0, rb.len(), 35u8);
    proof {
        lemma_find_byte(rb@, 0, rb@.len() as int, 35u8);
    }
    let path = substr(raw_path, 0, h);
    let parent = match path_parent(source_file.as_str()) {
        Some(p) => p,
        None => String::new(),
    };
    let joined = if parent.as_str().is_empty() {
        path.to_owned()
    } else {
        let mut j = parent;
        let sep = "/";
        proof {
            reveal_strlit("/");
        }
        assert(sep@ =~= seq!['/']);
        j.append(sep);
        j.append(path);
        j
    };
    assert(joined@ =~= join_onto(
        match std_path_parent(source_file@) {
            Some(p) => p,
            None => seq![],
        },
        without_anchor(raw_path@),
    ));
    let cleaned = clean_path(joined.as_str());
    let canonical = canonical_from_cleaned(cleaned.as_str());
    drop_up_steps_exec(canonical.as_str())
}

// ───────────────────────── wiki links ─────────────────────────

/// Byte range of the stem of a path: its final segment without a `.md` suffix.
pub open spec fn stem_range(b: Seq<u8>) -> (int, int) {
    let lo = rfind_byte(b, b.len() as int, 47u8) + 1;
    if has_suffix(b, lo, b.len() as int, pat_md()) {
        (lo, b.len() - 3)
    } else {
        (lo, b.len() as int)
    }
}

/// The stem of path `p`, as bytes.
pub open spec fn stem_bytes(p: Seq<char>) -> Seq<u8> {
    let b = vstd::utf8::encode_utf8(p);
    b.subrange(stem_range(b).0, stem_range(b).1)
}

/// The stem (final segment without `.md`) of a path, e.g. `docs/a/x.md` gives `x`.
pub fn stem_of(canonical: &str) -> (r: &str)
    ensures
        r.spec_bytes() == stem_bytes(canonical@),
        r@ == chars_of(stem_bytes(canonical@)),
{
    let b = canonical.as_bytes();
    let lo = match rfind_byte_exec(b, b.len(), 47u8) {
        Some(i) => i + 1,
        None => 0,
    };
    proof {
        lemma_rfind_byte(b@, b@.len() as int, 47u8);
    }
    if ends_with_md(b, lo, b.len()) {
        substr(canonical, lo, b.len() - 3)
    } else {
        substr(canonical, lo, b.len())
    }
}

/// Result of resolving a raw reference path.
#[derive(Debug, PartialEq)]
pub enum ResolveResult {
    /// Exactly one file matches.
    Resolved(CanonicalPath),
    /// No file matches: the reference was already broken.
    BrokenRef,
    /// Two or more files match; all of them are listed.
    Ambiguous(Vec<CanonicalPath>),
}

/// The files of `files` whose stem is `stem`, in order.
pub open spec fn stem_matches(files: Seq<String>, stem: Seq<u8>) -> Seq<Seq<char>>
    decreases files.len(),
{
    if files.len() == 0 {
        seq![]
    } else {
        let prev = stem_matches(files.drop_last(), stem);
        if stem_bytes(files.last()@) == stem {
            prev.push(files.last()@)
        } else {
            prev
        }
    }
}

pub open spec fn views(v: Seq<String>) -> Seq<Seq<char>> {
    v.map_values(|s: String| s@)
}

/// Resolve a wiki-link stem against the workspace file list (case-sensitive).
pub fn resolve_form2(stem: &str, all_workspace_files: &[CanonicalPath]) -> (r: ResolveResult)
    ensures
        ({
            let m = stem_matches(all_workspace_files@, stem.spec_bytes());
            match r {
                ResolveResult::BrokenRef => m.len() == 0,
                ResolveResult::Resolved(p) => m.len() == 1 && p@ == m[0],
                ResolveResult::Ambiguous(v) => m.len() >= 2 && views(v@) == m,
            }
        }),
{
    let ghost sb = stem.spec_bytes();
    let mut matches: Vec<CanonicalPath> = Vec::new();
    let mut i: usize = 0;
    while i < all_workspace_files.len()
        invariant
            0 <= i <= all_workspace_files@.len(),
            sb == stem.spec_bytes(),
            views(matches@) =~= stem_matches(all_workspace_files@.take(i as int), sb),
        decreases all_workspace_files@.len() - i,
    {
        let f = &all_workspace_files[i];
        let st = stem_of(f.as_str());
        let ghost t = all_workspace_files@.take(i + 1);
        assert(t.drop_last() =~= all_workspace_files@.take(i as int));
        assert(t.last() == *f);
        if bytes_eq(st.as_bytes(), stem.as_bytes()) {
            matches.push(f.clone());
        }
        i = i + 1;
    }
    assert(all_workspace_files@.take(i as int) =~= all_workspace_files@);
    let n = matches.len();
    if n == 0 {
        ResolveResult::BrokenRef
    } else if n == 1 {
        let p = matches.pop().unwrap();
        assert(views(matches@.push(p))[0] == p@);
        ResolveResult::Resolved(p)
    } else {
        ResolveResult::Ambiguous(matches)
    }
}

} // verus!
