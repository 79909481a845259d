//! `file validate`: every reference of every workspace file must lead to an
//! existing file. The library classifies each reference and lists what to
//! look up on disk; the caller answers, and the library decides and reports.

use vstd::prelude::*;
use vstd::string::*;
use vstd::utf8::encode_utf8;
use crate::fmt::{dec, push_decimal};
use crate::model::{CanonicalPath, RefForm, Reference};
use crate::resolver::{form1_target, resolve_form1, resolve_form2, stem_bytes, stem_matches, ResolveResult};
use crate::suggest::{suggest_similar, suggestions_spec};
use crate::text::push_char;
use crate::transaction::{anchor_root_prefix, ref_view, ref_views, starts_with_chars, starts_with_str, RefView};
use crate::validator::{line_at, line_of};

verus! {

broadcast use vstd::seq::group_seq_axioms;

/// What checking one reference needs.
#[derive(Debug)]
pub enum RefCheck {
    /// A wiki link whose stem matches no file: broken as it stands (`[[stem]]`).
    Missing { file: CanonicalPath, line: usize, display: String },
    /// A reference whose target must exist on disk.
    Exists { file: CanonicalPath, line: usize, raw: String, canonical: CanonicalPath },
}

/// What the check of one reference looks up, as plain values: `Err(display)`
/// for a wiki link with no match, `Ok(canonical)` for a path to look up.
pub open spec fn ws_target(rv: RefView, file: Seq<char>, files: Seq<String>) -> Option<Result<Seq<char>, Seq<char>>> {
    let t = rv.3;
    match rv.2 {
        RefForm::Standard => Some(Ok(form1_target(file, t))),
        RefForm::HtmlHref => Some(Ok(form1_target(file, t))),
        RefForm::Wiki => {
            let m = stem_matches(files, encode_utf8(t));
            if m.len() == 1 {
                Some(Ok(m[0]))
            } else if m.len() == 0 {
                Some(Err(seq!['[', '['] + t + seq![']', ']']))
            } else {
                None
            }
        },
        RefForm::Yaml | RefForm::Toml => Some(
            Ok(
                if starts_with_chars(t, anchor_root_prefix()) {
                    t.skip(15)
                } else {
                    t
                },
            ),
        ),
        RefForm::Backtick => Some(
            Ok(
                if starts_with_chars(t, seq!['.', '/']) || starts_with_chars(t, seq!['.', '.', '/']) {
                    form1_target(file, t)
                } else if starts_with_chars(t, anchor_root_prefix()) {
                    t.skip(15)
                } else {
                    t
                },
            ),
        ),
    }
}

/// A check as plain values: file, line, `Err(display)` or `Ok((raw, canonical))`.
pub type CheckItem = (Seq<char>, int, Result<(Seq<char>, Seq<char>), Seq<char>>);

pub open spec fn check_item(c: RefCheck) -> CheckItem {
    match c {
        RefCheck::Missing { file, line, display } => (file@, line as int, Err(display@)),
        RefCheck::Exists { file, line, raw, canonical } => (file@, line as int, Ok((raw@, canonical@))),
    }
}

pub open spec fn check_items(v: Seq<RefCheck>) -> Seq<CheckItem> {
    v.map_values(|c: RefCheck| check_item(c))
}

/// The checks of the references `rvs` of `file` (bytes `b`), in reference
/// order; ambiguous wiki links are skipped.
pub open spec fn ws_checks(rvs: Seq<RefView>, file: Seq<char>, b: Seq<u8>, files: Seq<String>) -> Seq<CheckItem>
    decreases rvs.len(),
{
    if rvs.len() == 0 {
        seq![]
    } else {
        let prev = ws_checks(rvs.drop_last(), file, b, files);
        let rv = rvs.last();
        match ws_target(rv, file, files) {
            None => prev,
            Some(Err(d)) => prev.push((file, line_at(b, rv.1.0), Err(d))),
            Some(Ok(c)) => prev.push((file, line_at(b, rv.1.0), Ok((rv.3, c)))),
        }
    }
}

/// The checks for the references `refs` found in `file` with text `content`.
pub fn reference_checks(
    file: &CanonicalPath,
    content: &str,
    refs: &[Reference],
    workspace_files: &[CanonicalPath],
) -> (r: Vec<RefCheck>)
    requires
        content.spec_bytes().len() < usize::MAX,
    ensures
        check_items(r@) == ws_checks(ref_views(refs@), file@, content.spec_bytes(), workspace_files@),
{
    let pre = "$(anchor root)/";
    let dot = "./";
    let dotdot = "../";
    proof {
        reveal_strlit("$(anchor root)/");
        reveal_strlit("./");
        reveal_strlit("../");
    }
    assert(pre@ =~= anchor_root_prefix());
    assert(dot@ =~= seq!['.', '/']);
    assert(dotdot@ =~= seq!['.', '.', '/']);
    let ghost b = content.spec_bytes();
    let mut out: Vec<RefCheck> = Vec::new();
    let mut i: usize = 0;
    assert(ref_views(refs@.take(0)) =~= Seq::<RefView>::empty());
    while i < refs.len()
        invariant
            0 <= i <= refs@.len(),
            b == content.spec_bytes(),
            b.len() < usize::MAX,
            pre@ == anchor_root_prefix(),
            dot@ == seq!['.', '/'],
            dotdot@ == seq!['.', '.', '/'],
            check_items(out@) == ws_checks(ref_views(refs@.take(i as int)), file@, b, workspace_files@),
        decreases refs@.len() - i,
    {
        let r = &refs[i];
        let ghost rvs = ref_views(refs@.take(i + 1));
        assert(rvs.drop_last() =~= ref_views(refs@.take(i as int)));
        assert(rvs.last() == ref_view(*r));
        let t = r.target_raw.as_str();
        let line = line_of(content, r.span.0);
        let target: Option<Result<String, String>> = match r.form {
            RefForm::Standard => Some(Ok(resolve_form1(file, t))),
            RefForm::HtmlHref => Some(Ok(resolve_form1(file, t))),
            RefForm::Wiki => match resolve_form2(t, workspace_files) {
                ResolveResult::Resolved(p) => Some(Ok(p)),
                ResolveResult::BrokenRef => {
                    let mut d = String::new();
                    d.append("[[");
                    d.append(t);
                    d.append("]]");
                    proof {
                        reveal_strlit("[[");
                        reveal_strlit("]]");
                    }
                    assert(d@ =~= seq!['[', '['] + t@ + seq![']', ']']);
                    Some(Err(d))
                },
                ResolveResult::Ambiguous(_) => None,
            },
            RefForm::Yaml | RefForm::Toml => {
                if starts_with_str(t, pre) {
                    let s = t.substring_char(15, t.unicode_len());
                    assert(s@ =~= t@.skip(15));
                    Some(Ok(s.to_owned()))
                } else {
                    Some(Ok(t.to_owned()))
                }
            },
            RefForm::Backtick => {
                if starts_with_str(t, dot) || starts_with_str(t, dotdot) {
                    Some(Ok(resolve_form1(file, t)))
                } else if starts_with_str(t, pre) {
                    let s = t.substring_char(15, t.unicode_len());
                    assert(s@ =~= t@.skip(15));
                    Some(Ok(s.to_owned()))
                } else {
                    Some(Ok(t.to_owned()))
                }
            },
        };
        let ghost before = check_items(out@);
        match target {
            None => {},
            Some(Err(d)) => {
                let c = RefCheck::Missing { file: file.clone(), line, display: d };
                out.push(c);
                assert(check_items(out@) =~= before.push(check_item(c)));
            },
            Some(Ok(canonical)) => {
                let c = RefCheck::Exists { file: file.clone(), line, raw: r.target_raw.clone(), canonical };
                out.push(c);
                assert(check_items(out@) =~= before.push(check_item(c)));
            },
        }
        i = i + 1;
    }
    assert(refs@.take(i as int) =~= refs@);
    out
}

/// The broken references among the checks, in order, as `(file, line, raw)`:
/// every wiki link without a match, and every path whose `exists` flag is false.
pub open spec fn ws_broken(items: Seq<CheckItem>, exists: Seq<bool>) -> Seq<(Seq<char>, int, Seq<char>)>
    decreases items.len(),
{
    if items.len() == 0 {
        seq![]
    } else {
        let n = items.len() - 1;
        let prev = ws_broken(items.drop_last(), exists.take(n));
        let it = items.last();
        match it.2 {
            Err(d) => prev.push((it.0, it.1, d)),
            Ok((raw, _)) => if exists[n] {
                prev
            } else {
                prev.push((it.0, it.1, raw))
            },
        }
    }
}

proof fn lemma_ws_checks_has(rvs: Seq<RefView>, file: Seq<char>, b: Seq<u8>, files: Seq<String>, k: int)
    requires
        0 <= k < rvs.len(),
        ws_target(rvs[k], file, files) is Some,
    ensures
        ws_checks(rvs, file, b, files).contains(
            (
                file,
                line_at(b, rvs[k].1.0),
                match ws_target(rvs[k], file, files).unwrap() {
                    Ok(c) => Ok((rvs[k].3, c)),
                    Err(d) => Err(d),
                },
            ),
        ),
    decreases rvs.len(),
{
    let item = (
        file,
        line_at(b, rvs[k].1.0),
        match ws_target(rvs[k], file, files).unwrap() {
            Ok(c) => Result::<(Seq<char>, Seq<char>), Seq<char>>::Ok((rvs[k].3, c)),
            Err(d) => Err(d),
        },
    );
    let prev = ws_checks(rvs.drop_last(), file, b, files);
    if k == rvs.len() - 1 {
        assert(ws_checks(rvs, file, b, files) == prev.push(item));
        assert(ws_checks(rvs, file, b, files)[prev.len() as int] == item);
    } else {
        assert(rvs.drop_last()[k] == rvs[k]);
        lemma_ws_checks_has(rvs.drop_last(), file, b, files, k);
        let j = choose|j: int| 0 <= j < prev.len() && prev[j] == item;
        let cur = ws_checks(rvs, file, b, files);
        assert(cur.len() >= prev.len() && cur[j] == prev[j]);
    }
}

/// Every standard link and every `href` link gives an `Exists` check for its
/// file and line, of its raw target at the path that target resolves to; so
/// it is reported broken whenever that path is found missing.
pub proof fn path_links_are_looked_up(rvs: Seq<RefView>, file: Seq<char>, b: Seq<u8>, files: Seq<String>, k: int)
    requires
        0 <= k < rvs.len(),
        rvs[k].2 == RefForm::Standard || rvs[k].2 == RefForm::HtmlHref,
    ensures
        ws_checks(rvs, file, b, files).contains(
            (file, line_at(b, rvs[k].1.0), Ok((rvs[k].3, form1_target(file, rvs[k].3)))),
        ),
{
    lemma_ws_checks_has(rvs, file, b, files, k);
}

/// Each check paired with the answer to its lookup.
pub open spec fn items_with_answers(items: Seq<CheckItem>, exists: Seq<bool>) -> Seq<(CheckItem, bool)> {
    Seq::new(items.len(), |i: int| (items[i], exists[i]))
}

/// Whether a check, with the answer to its lookup, is a broken reference.
pub open spec fn is_broken(p: (CheckItem, bool)) -> bool {
    match p.0.2 {
        Err(_) => true,
        Ok(_) => !p.1,
    }
}

/// How a broken check is reported: its file, its line, and the wiki display
/// or the raw target.
pub open spec fn broken_triple(p: (CheckItem, bool)) -> (Seq<char>, int, Seq<char>) {
    match p.0.2 {
        Err(d) => (p.0.0, p.0.1, d),
        Ok((raw, _)) => (p.0.0, p.0.1, raw),
    }
}

/// The broken references are exactly the wiki links without a match and the
/// paths found missing, in check order; a path found on disk is never reported.
pub proof fn broken_exactly_unmatched_or_missing(items: Seq<CheckItem>, exists: Seq<bool>)
    requires
        items.len() == exists.len(),
    ensures
        ws_broken(items, exists) == items_with_answers(items, exists).filter(|p: (CheckItem, bool)| is_broken(p)).map_values(
            |p: (CheckItem, bool)| broken_triple(p),
        ),
    decreases items.len(),
{
    reveal(Seq::filter);
    let pred = |p: (CheckItem, bool)| is_broken(p);
    let mk = |p: (CheckItem, bool)| broken_triple(p);
    let z = items_with_answers(items, exists);
    if items.len() == 0 {
        assert(z.filter(pred) =~= Seq::<(CheckItem, bool)>::empty());
        assert(z.filter(pred).map_values(mk) =~= Seq::<(Seq<char>, int, Seq<char>)>::empty());
    } else {
        let n = items.len() - 1;
        broken_exactly_unmatched_or_missing(items.drop_last(), exists.take(n));
        assert(items_with_answers(items.drop_last(), exists.take(n)) =~= z.drop_last());
        let sub = z.drop_last().filter(pred);
        assert(z.last() == (items.last(), exists[n]));
        if pred(z.last()) {
            assert(z.filter(pred) == sub.push(z.last()));
            assert(sub.push(z.last()).map_values(mk) =~= sub.map_values(mk).push(mk(z.last())));
        } else {
            assert(z.filter(pred) == sub);
        }
    }
}

pub open spec fn triple_views(v: Seq<(String, usize, String)>) -> Seq<(Seq<char>, int, Seq<char>)> {
    v.map_values(|t: (String, usize, String)| (t.0@, t.1 as int, t.2@))
}

/// The broken references: `exists[i]` tells whether the path of `checks[i]`
/// exists on disk (it is ignored for wiki links without a match).
pub fn broken_references(checks: &[RefCheck], exists: &[bool]) -> (r: Vec<(String, usize, String)>)
    requires
        checks@.len() == exists@.len(),
    ensures
        triple_views(r@) == ws_broken(check_items(checks@), exists@),
{
    let mut out: Vec<(String, usize, String)> = Vec::new();
    let mut i: usize = 0;
    assert(check_items(checks@).take(0) =~= Seq::<CheckItem>::empty());
    while i < checks.len()
        invariant
            0 <= i <= checks@.len(),
            checks@.len() == exists@.len(),
            triple_views(out@) == ws_broken(check_items(checks@).take(i as int), exists@.take(i as int)),
        decreases checks@.len() - i,
    {
        let ghost items = check_items(checks@).take(i + 1);
        assert(items.drop_last() =~= check_items(checks@).take(i as int));
        assert(exists@.take(i + 1).take(i as int) =~= exists@.take(i as int));
        assert(items.last() == check_item(checks@[i as int]));
        let ghost before = triple_views(out@);
        match &checks[i] {
            RefCheck::Missing { file, line, display } => {
                out.push((file.clone(), *line, display.clone()));
                assert(triple_views(out@) =~= before.push((file@, *line as int, display@)));
            },
            RefCheck::Exists { file, line, raw, canonical } => {
                if !exists[i] {
                    out.push((file.clone(), *line, raw.clone()));
                    assert(triple_views(out@) =~= before.push((file@, *line as int, raw@)));
                }
            },
        }
        i = i + 1;
    }
    assert(check_items(checks@).take(i as int) =~= check_items(checks@));
    assert(exists@.take(i as int) =~= exists@);
    out
}

proof fn lemma_ws_broken_has_missing(items: Seq<CheckItem>, exists: Seq<bool>, d: Seq<char>, j: int)
    requires
        0 <= j < items.len(),
        items[j].2 == Result::<(Seq<char>, Seq<char>), Seq<char>>::Err(d),
    ensures
        ws_broken(items, exists).contains((items[j].0, items[j].1, d)),
    decreases items.len(),
{
    let n = items.len() - 1;
    let prev = ws_broken(items.drop_last(), exists.take(n));
    let t = (items[j].0, items[j].1, d);
    if j == n {
        assert(ws_broken(items, exists) == prev.push(t));
        assert(ws_broken(items, exists)[prev.len() as int] == t);
    } else {
        assert(items.drop_last()[j] == items[j]);
        lemma_ws_broken_has_missing(items.drop_last(), exists.take(n), d, j);
        let q = choose|q: int| 0 <= q < prev.len() && prev[q] == t;
        let cur = ws_broken(items, exists);
        assert(cur.len() >= prev.len() && cur[q] == prev[q]);
    }
}

/// A wiki link whose stem matches no workspace file gives a `Missing` check
/// for its file and line, displayed as `[[stem]]`, and so it is among the
/// broken references whatever the lookups on disk answer.
pub proof fn unmatched_wiki_link_is_broken(
    rvs: Seq<RefView>,
    file: Seq<char>,
    b: Seq<u8>,
    files: Seq<String>,
    k: int,
    exists: Seq<bool>,
)
    requires
        0 <= k < rvs.len(),
        rvs[k].2 == RefForm::Wiki,
        forall|i: int| 0 <= i < files.len() ==> stem_bytes(#[trigger] files[i]@) != encode_utf8(rvs[k].3),
    ensures
        ws_checks(rvs, file, b, files).contains(
            (file, line_at(b, rvs[k].1.0), Err(seq!['[', '['] + rvs[k].3 + seq![']', ']'])),
        ),
        ws_broken(ws_checks(rvs, file, b, files), exists).contains(
            (file, line_at(b, rvs[k].1.0), seq!['[', '['] + rvs[k].3 + seq![']', ']']),
        ),
{
    lemma_no_stem_match(files, encode_utf8(rvs[k].3));
    lemma_ws_checks_has(rvs, file, b, files, k);
    let items = ws_checks(rvs, file, b, files);
    let d = seq!['[', '['] + rvs[k].3 + seq![']', ']'];
    let item = (file, line_at(b, rvs[k].1.0), Result::<(Seq<char>, Seq<char>), Seq<char>>::Err(d));
    let j = choose|j: int| 0 <= j < items.len() && items[j] == item;
    lemma_ws_broken_has_missing(items, exists, d, j);
}

proof fn lemma_no_stem_match(files: Seq<String>, stem: Seq<u8>)
    requires
        forall|i: int| 0 <= i < files.len() ==> stem_bytes(#[trigger] files[i]@) != stem,
    ensures
        stem_matches(files, stem).len() == 0,
    decreases files.len(),
{
    if files.len() > 0 {
        assert forall|i: int| 0 <= i < files.drop_last().len() implies stem_bytes(
            #[trigger] files.drop_last()[i]@,
        ) != stem by {
            assert(files.drop_last()[i] == files[i]);
        }
        lemma_no_stem_match(files.drop_last(), stem);
        assert(stem_bytes(files[files.len() - 1]@) != stem);
    }
}

/// The broken references not acknowledged (in order), and how many were.
pub open spec fn split_acked(broken: Seq<(Seq<char>, int, Seq<char>)>, acked: Seq<bool>) -> (Seq<(Seq<char>, int, Seq<char>)>, nat)
    decreases broken.len(),
{
    if broken.len() == 0 {
        (seq![], 0)
    } else {
        let n = broken.len() - 1;
        let prev = split_acked(broken.drop_last(), acked.take(n));
        if acked[n] {
            (prev.0, prev.1 + 1)
        } else {
            (prev.0.push(broken.last()), prev.1)
        }
    }
}

/// Set aside the acknowledged broken references: `acked[i]` tells whether the
/// file of `broken[i]` is acknowledged.
pub fn set_aside_acknowledged(broken: Vec<(String, usize, String)>, acked: &[bool]) -> (r: (Vec<(String, usize, String)>, usize))
    requires
        broken@.len() == acked@.len(),
    ensures
        (triple_views(r.0@), r.1 as nat) == split_acked(triple_views(broken@), acked@),
{
    let mut kept: Vec<(String, usize, String)> = Vec::new();
    let mut count: usize = 0;
    let mut i: usize = 0;
    let ghost bv = triple_views(broken@);
    assert(bv.take(0) =~= Seq::<(Seq<char>, int, Seq<char>)>::empty());
    while i < broken.len()
        invariant
            bv == triple_views(broken@),
            0 <= i <= broken@.len(),
            broken@.len() == acked@.len(),
            count <= i,
            (triple_views(kept@), count as nat) == split_acked(bv.take(i as int), acked@.take(i as int)),
        decreases broken@.len() - i,
    {
        assert(bv.take(i + 1).drop_last() =~= bv.take(i as int));
        assert(acked@.take(i + 1).take(i as int) =~= acked@.take(i as int));
        assert(bv.take(i + 1).last() == bv[i as int]);
        if acked[i] {
            count = count + 1;
        } else {
            let (f, l, t) = &broken[i];
            let ghost before = triple_views(kept@);
            kept.push((f.clone(), *l, t.clone()));
            assert(triple_views(kept@) =~= before.push(bv[i as int]));
        }
        i = i + 1;
    }
    assert(bv.take(i as int) =~= bv);
    assert(acked@.take(i as int) =~= acked@);
    (kept, count)
}

} // verus!

verus! {

/// One report entry: location, target, the closest match when there is one, a blank line.
pub open spec fn broken_entry_text(file: Seq<char>, line: nat, raw: Seq<char>, suggestions: Seq<Seq<char>>) -> Seq<char> {
    "  "@ + file + ":"@ + dec(line) + "\n    → "@ + raw + "  (not found)\n"@ + (if suggestions.len() > 0 {
        "    similar: "@ + suggestions[0] + "\n"@
    } else {
        seq![]
    }) + "\n"@
}

pub open spec fn broken_entries_text(broken: Seq<(String, usize, String)>, cands: Seq<String>) -> Seq<char>
    decreases broken.len(),
{
    if broken.len() == 0 {
        seq![]
    } else {
        let b = broken.last();
        broken_entries_text(broken.drop_last(), cands) + broken_entry_text(
            b.0@,
            b.1 as nat,
            b.2@,
            suggestions_spec(encode_utf8(b.2@), cands),
        )
    }
}

pub open spec fn acked_note(acked: nat) -> Seq<char> {
    "  ("@ + dec(acked) + " acknowledged — see .accelmars/anchor/acked)"@
}

/// The human report of `file validate`.
pub open spec fn validate_report_spec(
    workspace: Seq<char>,
    color: bool,
    files: nat,
    broken: Seq<(String, usize, String)>,
    acked: nat,
    cands: Seq<String>,
) -> Seq<char> {
    if broken.len() == 0 {
        "✓ "@ + dec(files) + " files scanned. No broken references."@ + (if acked > 0 {
            acked_note(acked)
        } else {
            seq![]
        }) + "\n"@
    } else {
        "Scanning workspace: "@ + (if color {
            "\u{1b}[36m"@ + workspace + "\u{1b}[0m"@
        } else {
            workspace
        }) + "  ("@ + dec(files) + " files)\n\nBROKEN REFERENCES ("@ + dec(broken.len()) + "):\n\n"@
            + broken_entries_text(broken, cands) + dec(broken.len()) + " broken references in "@ + dec(files)
            + " files."@ + (if acked > 0 {
            acked_note(acked)
        } else {
            seq![]
        }) + "\n"@
    }
}

fn push_acked_note(s: &mut String, acked: usize)
    ensures
        final(s)@ == old(s)@ + acked_note(acked as nat),
{
    s.append("  (");
    push_decimal(s, acked);
    s.append(" acknowledged — see .accelmars/anchor/acked)");
}

/// The human-readable report of `file validate`; `color` asks for the
/// workspace path to be highlighted (when printing to a terminal).
#[verifier::rlimit(60)]
#[verifier::spinoff_prover]
pub fn validate_report(
    workspace: &str,
    color: bool,
    file_count: usize,
    broken: &[(String, usize, String)],
    acked_count: usize,
    workspace_files: &[String],
) -> (r: String)
    requires
        forall|i: int| 0 <= i < broken@.len() ==> encode_utf8((#[trigger] broken@[i]).2@).len() < usize::MAX,
    ensures
        r@ == validate_report_spec(
            workspace@,
            color,
            file_count as nat,
            broken@,
            acked_count as nat,
            workspace_files@,
        ),
{
    let mut s = String::new();
    if broken.len() == 0 {
        s.append("✓ ");
        push_decimal(&mut s, file_count);
        s.append(" files scanned. No broken references.");
        if acked_count > 0 {
            push_acked_note(&mut s, acked_count);
        }
        s.append("\n");
        return s;
    }
    s.append("Scanning workspace: ");
    if color {
        s.append("\u{1b}[36m");
        s.append(workspace);
        s.append("\u{1b}[0m");
    } else {
        s.append(workspace);
    }
    s.append("  (");
    push_decimal(&mut s, file_count);
    s.append(" files)\n\nBROKEN REFERENCES (");
    push_decimal(&mut s, broken.len());
    s.append("):\n\n");
    let ghost head = s@;
    let mut i: usize = 0;
    assert(broken@.take(0) =~= Seq::<(String, usize, String)>::empty());
    while i < broken.len()
        invariant
            0 <= i <= broken@.len(),
            forall|i: int| 0 <= i < broken@.len() ==> encode_utf8((#[trigger] broken@[i]).2@).len() < usize::MAX,
            s@ == head + broken_entries_text(broken@.take(i as int), workspace_files@),
        decreases broken@.len() - i,
    {
        let (file, line, raw) = &broken[i];
        assert(broken@.take(i + 1).drop_last() =~= broken@.take(i as int));
        assert(broken@.take(i + 1).last() == broken@[i as int]);
        let suggestions = suggest_similar(raw.as_str(), workspace_files);
        let ghost sv = suggestions@.map_values(|x: String| x@);
        let ghost start = s@;
        s.append("  ");
        s.append(file.as_str());
        s.append(":");
        push_decimal(&mut s, *line);
        s.append("\n    → ");
        s.append(raw.as_str());
        s.append("  (not found)\n");
        if suggestions.len() > 0 {
            s.append("    similar: ");
            s.append(suggestions[0].as_str());
            s.append("\n");
        }
        s.append("\n");
        assert(sv.len() == suggestions@.len());
        assert(suggestions@.len() > 0 ==> sv[0] == suggestions@[0]@);
        assert(s@ =~= start + broken_entry_text(file@, *line as nat, raw@, sv));
        i = i + 1;
    }
    assert(broken@.take(i as int) =~= broken@);
    push_decimal(&mut s, broken.len());
    s.append(" broken references in ");
    push_decimal(&mut s, file_count);
    s.append(" files.");
    if acked_count > 0 {
        push_acked_note(&mut s, acked_count);
    }
    s.append("\n");
    s
}

} // verus!
