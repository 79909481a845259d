//! Reference validation: every standard link must lead to a file that exists.
//!
//! Validation runs in two steps. `link_checks` lists, for each relevant
//! reference, the canonical path it resolves to; the caller looks each path up
//! on disk and hands the answers to `validate_files`, which reports the links
//! whose target is missing.

use vstd::prelude::*;
use vstd::string::*;
use vstd::utf8::encode_utf8;
use crate::model::{CanonicalPath, RefForm, Reference};
use crate::parser::parse_references;
use crate::resolver::{form1_target, resolve_form1};
use crate::transaction::{lemma_parsed_views, parsed_views, ref_view, ref_views, RefView};

verus! {

broadcast use vstd::seq::group_seq_axioms;

/// A reference that failed to resolve (target file not found).
#[derive(Debug)]
pub struct BrokenRef {
    /// Canonical path of the file containing the reference.
    pub file: CanonicalPath,
    /// 1-based line number of the broken reference.
    pub line: usize,
    /// Raw target string as written in the file.
    pub target: String,
}

/// A link whose target must exist: where it is written and where it leads.
#[derive(Debug)]
pub struct LinkCheck {
    pub file: CanonicalPath,
    /// 1-based line of the reference.
    pub line: usize,
    /// The target as written.
    pub target: String,
    /// The canonical path the target resolves to.
    pub resolved: CanonicalPath,
}

/// Number of `\n` bytes among the first `n` bytes of `b`.
pub open spec fn count_nl(b: Seq<u8>, n: int) -> nat
    decreases n,
{
    if n <= 0 || n > b.len() {
        0
    } else {
        count_nl(b, n - 1) + if b[n - 1] == 10u8 {
            1nat
        } else {
            0nat
        }
    }
}

/// The 1-based line holding byte offset `pos` (offsets past the end count as the end).
pub open spec fn line_at(b: Seq<u8>, pos: int) -> int {
    count_nl(b, if pos <= b.len() { pos } else { b.len() as int }) as int + 1
}

/// 1-based line number of byte offset `pos` of `content`.
pub fn line_of(content: &str, pos: usize) -> (r: usize)
    requires
        content.spec_bytes().len() < usize::MAX,
    ensures
        r as int == line_at(content.spec_bytes(), pos as int),
{
    let b = content.as_bytes();
    let end = if pos <= b.len() {
        pos
    } else {
        b.len()
    };
    let mut count: usize = 0;
    let mut i: usize = 0;
    while i < end
        invariant
            end <= b@.len(),
            0 <= i <= end,
            count as int == count_nl(b@, i as int),
            count <= i,
        decreases end - i,
    {
        if b[i] == 10u8 {
            count = count + 1;
        }
        i = i + 1;
    }
    count + 1
}

/// A link check as plain values: file, line, target, resolved path.
pub type CheckView = (Seq<char>, int, Seq<char>, Seq<char>);

pub open spec fn check_view(c: LinkCheck) -> CheckView {
    (c.file@, c.line as int, c.target@, c.resolved@)
}

pub open spec fn check_views(v: Seq<LinkCheck>) -> Seq<CheckView> {
    v.map_values(|c: LinkCheck| check_view(c))
}

/// Whether a reference of this form is checked: never wiki links or inline
/// code paths, and `href` links only when `with_href` holds.
pub open spec fn is_checked(form: RefForm, with_href: bool) -> bool {
    form != RefForm::Wiki && form != RefForm::Backtick && (with_href || form != RefForm::HtmlHref)
}

/// The checks for the references `rvs` of `file` (bytes `b`), in order.
pub open spec fn checks_for(rvs: Seq<RefView>, file: Seq<char>, b: Seq<u8>, with_href: bool) -> Seq<CheckView>
    decreases rvs.len(),
{
    if rvs.len() == 0 {
        seq![]
    } else {
        let prev = checks_for(rvs.drop_last(), file, b, with_href);
        let rv = rvs.last();
        if is_checked(rv.2, with_href) {
            prev.push((file, line_at(b, rv.1.0), rv.3, form1_target(file, rv.3)))
        } else {
            prev
        }
    }
}

/// The checks for the references of one file, as the parser finds them.
pub fn file_checks(file: &CanonicalPath, content: &str, with_href: bool) -> (r: Vec<LinkCheck>)
    requires
        content.spec_bytes().len() < usize::MAX,
    ensures
        check_views(r@) == checks_for(parsed_views(file@, content.spec_bytes()), file@, content.spec_bytes(), with_href),
{
    let refs = parse_references(file, content);
    let ghost b = content.spec_bytes();
    proof {
        lemma_parsed_views(refs@, file@, b);
    }
    let mut out: Vec<LinkCheck> = Vec::new();
    let mut i: usize = 0;
    assert(ref_views(refs@.take(0)) =~= Seq::<RefView>::empty());
    while i < refs.len()
        invariant
            0 <= i <= refs@.len(),
            b == content.spec_bytes(),
            b.len() < usize::MAX,
            check_views(out@) == checks_for(ref_views(refs@.take(i as int)), file@, b, with_href),
        decreases refs@.len() - i,
    {
        let r = &refs[i];
        let ghost rvs = ref_views(refs@.take(i + 1));
        assert(rvs.drop_last() =~= ref_views(refs@.take(i as int)));
        assert(rvs.last() == ref_view(*r));
        let checked = match r.form {
            RefForm::Wiki => false,
            RefForm::Backtick => false,
            RefForm::HtmlHref => with_href,
            _ => true,
        };
        if checked {
            let resolved = resolve_form1(file, r.target_raw.as_str());
            let line = line_of(content, r.span.0);
            let c = LinkCheck { file: file.clone(), line, target: r.target_raw.clone(), resolved };
            let ghost before = check_views(out@);
            out.push(c);
            assert(check_views(out@) =~= before.push(check_view(c)));
        }
        i = i + 1;
    }
    assert(refs@.take(i as int) =~= refs@);
    out
}

/// The checks for several files, in file order.
pub open spec fn all_checks(files: Seq<(String, String)>, n: int) -> Seq<CheckView>
    decreases n,
{
    if n <= 0 {
        seq![]
    } else {
        all_checks(files, n - 1) + checks_for(
            parsed_views(files[n - 1].0@, encode_utf8(files[n - 1].1@)),
            files[n - 1].0@,
            encode_utf8(files[n - 1].1@),
            true,
        )
    }
}

/// Every link of the given `(canonical path, content)` files that must lead to
/// an existing file: all references but wiki links and inline code paths.
pub fn link_checks(files: &[(CanonicalPath, String)]) -> (r: Vec<LinkCheck>)
    requires
        forall|i: int| 0 <= i < files@.len() ==> encode_utf8(#[trigger] files@[i].1@).len() < usize::MAX,
    ensures
        check_views(r@) == all_checks(files@, files@.len() as int),
{
    let mut out: Vec<LinkCheck> = Vec::new();
    let mut i: usize = 0;
    while i < files.len()
        invariant
            0 <= i <= files@.len(),
            forall|i: int| 0 <= i < files@.len() ==> encode_utf8(#[trigger] files@[i].1@).len() < usize::MAX,
            check_views(out@) == all_checks(files@, i as int),
        decreases files@.len() - i,
    {
        let (canonical, content) = &files[i];
        let mut more = file_checks(canonical, content.as_str(), true);
        let ghost before = out@;
        let ghost added = more@;
        out.append(&mut more);
        assert(check_views(out@) =~= check_views(before) + check_views(added));
        i = i + 1;
    }
    out
}

/// A reference that leads to a file path: anything but a wiki link or an
/// inline code path.
pub open spec fn leads_to_path(rv: RefView) -> bool {
    rv.2 != RefForm::Wiki && rv.2 != RefForm::Backtick
}

/// The check of reference `rv` of `file` (bytes `b`): its file, its line, its
/// raw target and the canonical path that target resolves to.
pub open spec fn check_of(file: Seq<char>, b: Seq<u8>, rv: RefView) -> CheckView {
    (file, line_at(b, rv.1.0), rv.3, form1_target(file, rv.3))
}

proof fn lemma_checks_are_path_refs(rvs: Seq<RefView>, file: Seq<char>, b: Seq<u8>)
    ensures
        checks_for(rvs, file, b, true) == rvs.filter(|rv: RefView| leads_to_path(rv)).map_values(
            |rv: RefView| check_of(file, b, rv),
        ),
    decreases rvs.len(),
{
    reveal(Seq::filter);
    let pred = |rv: RefView| leads_to_path(rv);
    let mk = |rv: RefView| check_of(file, b, rv);
    if rvs.len() == 0 {
        assert(rvs.filter(pred) =~= Seq::<RefView>::empty());
        assert(rvs.filter(pred).map_values(mk) =~= Seq::<CheckView>::empty());
    } else {
        lemma_checks_are_path_refs(rvs.drop_last(), file, b);
        let sub = rvs.drop_last().filter(pred);
        if pred(rvs.last()) {
            assert(rvs.filter(pred) == sub.push(rvs.last()));
            assert(sub.push(rvs.last()).map_values(mk) =~= sub.map_values(mk).push(mk(rvs.last())));
        } else {
            assert(rvs.filter(pred) == sub);
        }
    }
}

/// Link checking covers every reference that leads to a path: the checks of
/// the first `n` files are those of the first `n - 1`, followed by one check
/// for each reference of file `n` that is neither a wiki link nor an inline
/// code path (standard links and `href` links alike), in order, each carrying
/// its file, line, raw target and resolved path.
pub proof fn every_path_reference_is_checked(files: Seq<(String, String)>, n: int)
    requires
        0 < n <= files.len(),
    ensures
        all_checks(files, n) == all_checks(files, n - 1) + parsed_views(
            files[n - 1].0@,
            encode_utf8(files[n - 1].1@),
        ).filter(|rv: RefView| leads_to_path(rv)).map_values(
            |rv: RefView| check_of(files[n - 1].0@, encode_utf8(files[n - 1].1@), rv),
        ),
{
    lemma_checks_are_path_refs(parsed_views(files[n - 1].0@, encode_utf8(files[n - 1].1@)), files[n - 1].0@, encode_utf8(files[n - 1].1@));
}

/// The checks whose target is missing, as broken references, in order.
pub open spec fn broken_of(checks: Seq<CheckView>, exists: Seq<bool>) -> Seq<(Seq<char>, int, Seq<char>)>
    decreases checks.len(),
{
    if checks.len() == 0 {
        seq![]
    } else {
        let prev = broken_of(checks.drop_last(), exists.take(checks.len() - 1));
        let c = checks.last();
        if exists[checks.len() - 1] {
            prev
        } else {
            prev.push((c.0, c.1, c.2))
        }
    }
}

/// Each check paired with the answer to its lookup.
pub open spec fn with_answers(checks: Seq<CheckView>, exists: Seq<bool>) -> Seq<(CheckView, bool)> {
    Seq::new(checks.len(), |i: int| (checks[i], exists[i]))
}

/// A link is reported broken exactly when its target was found missing: the
/// broken references are the checks whose lookup answered `false`, in order,
/// each as its file, line and raw target.
pub proof fn broken_exactly_when_missing(checks: Seq<CheckView>, exists: Seq<bool>)
    requires
        checks.len() == exists.len(),
    ensures
        broken_of(checks, exists) == with_answers(checks, exists).filter(|p: (CheckView, bool)| !p.1).map_values(
            |p: (CheckView, bool)| (p.0.0, p.0.1, p.0.2),
        ),
    decreases checks.len(),
{
    reveal(Seq::filter);
    let pred = |p: (CheckView, bool)| !p.1;
    let mk = |p: (CheckView, bool)| (p.0.0, p.0.1, p.0.2);
    let z = with_answers(checks, exists);
    if checks.len() == 0 {
        assert(z.filter(pred) =~= Seq::<(CheckView, bool)>::empty());
        assert(z.filter(pred).map_values(mk) =~= Seq::<(Seq<char>, int, Seq<char>)>::empty());
    } else {
        let n = checks.len() - 1;
        broken_exactly_when_missing(checks.drop_last(), exists.take(n));
        assert(with_answers(checks.drop_last(), exists.take(n)) =~= z.drop_last());
        let sub = z.drop_last().filter(pred);
        assert(z.last() == (checks.last(), exists[n]));
        if pred(z.last()) {
            assert(z.filter(pred) == sub.push(z.last()));
            assert(sub.push(z.last()).map_values(mk) =~= sub.map_values(mk).push(mk(z.last())));
        } else {
            assert(z.filter(pred) == sub);
        }
    }
}

pub open spec fn broken_view(b: BrokenRef) -> (Seq<char>, int, Seq<char>) {
    (b.file@, b.line as int, b.target@)
}

pub open spec fn broken_views(v: Seq<BrokenRef>) -> Seq<(Seq<char>, int, Seq<char>)> {
    v.map_values(|b: BrokenRef| broken_view(b))
}

/// The broken references among `checks`, where `exists[i]` tells whether the
/// target of `checks[i]` exists. Empty means every reference is valid.
pub fn validate_files(checks: &[LinkCheck], exists: &[bool]) -> (r: Vec<BrokenRef>)
    requires
        checks@.len() == exists@.len(),
    ensures
        broken_views(r@) == broken_of(check_views(checks@), exists@),
{
    let mut out: Vec<BrokenRef> = Vec::new();
    let mut i: usize = 0;
    assert(check_views(checks@).take(0) =~= Seq::<CheckView>::empty());
    while i < checks.len()
        invariant
            0 <= i <= checks@.len(),
            checks@.len() == exists@.len(),
            broken_views(out@) == broken_of(check_views(checks@).take(i as int), exists@.take(i as int)),
        decreases checks@.len() - i,
    {
        let ghost cv = check_views(checks@).take(i + 1);
        assert(cv.drop_last() =~= check_views(checks@).take(i as int));
        assert(exists@.take(i + 1).take(i as int) =~= exists@.take(i as int));
        if !exists[i] {
            let c = &checks[i];
            let b = BrokenRef { file: c.file.clone(), line: c.line, target: c.target.clone() };
            let ghost before = broken_views(out@);
            out.push(b);
            assert(broken_views(out@) =~= before.push(broken_view(b)));
        }
        i = i + 1;
    }
    assert(check_views(checks@).take(i as int) =~= check_views(checks@));
    assert(exists@.take(i as int) =~= exists@);
    out
}

} // verus!
