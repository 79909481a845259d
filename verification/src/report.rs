//! The text `file mv` and `file refs` print, and the counts behind it.

use vstd::prelude::*;
use vstd::string::*;
use vstd::utf8::encode_utf8;
use crate::fmt::{dec, push_decimal};
use crate::model::{CanonicalPath, RefForm, RewritePlan};
use crate::parser::parse_references;
use crate::resolver::{form1_target, resolve_form1, resolve_form2, stem_matches, ResolveResult};
use crate::text::{push_char, string_views};
use crate::transaction::{
    anchor_root_prefix, lemma_parsed_views, parsed_views, ref_view, ref_views, starts_with_chars, starts_with_str,
    RefView,
};
use crate::validator::{line_at, line_of};

verus! {

broadcast use vstd::seq::group_seq_axioms;

/// Append the UTF-8 bytes of `s` to `w`.
pub fn write_str(w: &mut Vec<u8>, s: &str)
    ensures
        final(w)@ == old(w)@ + s.spec_bytes(),
{
    let b = s.as_bytes();
    let ghost start = w@;
    let mut i: usize = 0;
    while i < b.len()
        invariant
            0 <= i <= b@.len(),
            w@ == start + b@.take(i as int),
        decreases b@.len() - i,
    {
        w.push(b[i]);
        assert(w@ =~= start + b@.take(i + 1));
        i = i + 1;
    }
    assert(b@.take(i as int) =~= b@);
}

/// `Moved. Rewrote {refs} references in {files} files.\n`
pub open spec fn verbose_summary(refs: nat, files: nat) -> Seq<char> {
    "Moved. Rewrote "@ + dec(refs) + " references in "@ + dec(files) + " files.\n"@
}

/// Write the `--verbose` success summary of a move.
pub fn write_verbose_output(
    w: &mut Vec<u8>,
    src: &str,
    dst: &str,
    refs_rewritten: usize,
    files_touched: usize,
) -> (r: Result<(), std::io::Error>)
    ensures
        r is Ok,
        final(w)@ == old(w)@ + encode_utf8(verbose_summary(refs_rewritten as nat, files_touched as nat)),
{
    let mut s = String::new();
    s.append("Moved. Rewrote ");
    push_decimal(&mut s, refs_rewritten);
    s.append(" references in ");
    push_decimal(&mut s, files_touched);
    s.append(" files.\n");
    write_str(w, s.as_str());
    Ok(())
}

/// The files of the plan's entries, each once, in order of first appearance.
pub open spec fn first_occurrences(files: Seq<Seq<char>>) -> Seq<Seq<char>>
    decreases files.len(),
{
    if files.len() == 0 {
        seq![]
    } else {
        let prev = first_occurrences(files.drop_last());
        if prev.contains(files.last()) {
            prev
        } else {
            prev.push(files.last())
        }
    }
}

fn contains_string(v: &Vec<String>, s: &str) -> (r: bool)
    ensures
        r == string_views(v@).contains(s@),
{
    let mut i: usize = 0;
    while i < v.len()
        invariant
            0 <= i <= v@.len(),
            forall|j: int| 0 <= j < i ==> v@[j]@ != s@,
        decreases v@.len() - i,
    {
        if crate::text::str_eq(v[i].as_str(), s) {
            assert(string_views(v@)[i as int] == s@);
            return true;
        }
        i = i + 1;
    }
    assert forall|j: int| 0 <= j < string_views(v@).len() implies string_views(v@)[j] != s@ by {
        assert(string_views(v@)[j] == v@[j]@);
    }
    false
}

/// The files a plan rewrites, each once, in the order they first appear.
pub fn rewrite_file_list(plan: &RewritePlan) -> (r: Vec<String>)
    ensures
        string_views(r@) == first_occurrences(plan.entries@.map_values(|e: crate::model::RewriteEntry| e.file@)),
{
    let ghost fv = plan.entries@.map_values(|e: crate::model::RewriteEntry| e.file@);
    let mut out: Vec<String> = Vec::new();
    let mut i: usize = 0;
    assert(fv.take(0) =~= Seq::<Seq<char>>::empty());
    while i < plan.entries.len()
        invariant
            fv == plan.entries@.map_values(|e: crate::model::RewriteEntry| e.file@),
            0 <= i <= plan.entries@.len(),
            string_views(out@) == first_occurrences(fv.take(i as int)),
        decreases plan.entries@.len() - i,
    {
        let f = &plan.entries[i].file;
        assert(fv.take(i + 1).drop_last() =~= fv.take(i as int));
        assert(fv.take(i + 1).last() == f@);
        if !contains_string(&out, f.as_str()) {
            let ghost before = string_views(out@);
            out.push(f.clone());
            assert(string_views(out@) =~= before.push(f@));
        }
        i = i + 1;
    }
    assert(fv.take(i as int) =~= fv);
    out
}

// ───────────────────────── file refs ─────────────────────────

/// The `file refs` human report: `No references found.` for no hits; else
/// the target, one `  {file}:{line}` row per hit, and the count of distinct files.
pub open spec fn refs_report(target: Seq<char>, hits: Seq<(String, usize)>) -> Seq<char> {
    if hits.len() == 0 {
        "No references found.\n"@
    } else {
        "References to: "@ + target + "\n\n"@ + hit_rows(hits) + "\n"@ + dec(
            first_occurrences(hits.map_values(|h: (String, usize)| h.0@)).len(),
        ) + " files reference this file.\n"@
    }
}

pub open spec fn hit_rows(hits: Seq<(String, usize)>) -> Seq<char>
    decreases hits.len(),
{
    if hits.len() == 0 {
        seq![]
    } else {
        hit_rows(hits.drop_last()) + "  "@ + hits.last().0@ + ":"@ + dec(hits.last().1 as nat) + "\n"@
    }
}

/// Render the hits of `file refs` for humans.
pub fn format_human(w: &mut Vec<u8>, target_canonical: &str, hits: &[(String, usize)]) -> (r: Result<(), std::io::Error>)
    ensures
        r is Ok,
        final(w)@ == old(w)@ + encode_utf8(refs_report(target_canonical@, hits@)),
{
    let mut s = String::new();
    if hits.len() == 0 {
        s.append("No references found.\n");
    } else {
        s.append("References to: ");
        s.append(target_canonical);
        s.append("\n\n");
        let ghost head = s@;
        let mut files: Vec<String> = Vec::new();
        let ghost fv = hits@.map_values(|h: (String, usize)| h.0@);
        let mut i: usize = 0;
        assert(hits@.take(0) =~= Seq::<(String, usize)>::empty());
        assert(fv.take(0) =~= Seq::<Seq<char>>::empty());
        while i < hits.len()
            invariant
                fv == hits@.map_values(|h: (String, usize)| h.0@),
                0 <= i <= hits@.len(),
                s@ == head + hit_rows(hits@.take(i as int)),
                string_views(files@) == first_occurrences(fv.take(i as int)),
            decreases hits@.len() - i,
        {
            let (f, l) = &hits[i];
            assert(hits@.take(i + 1).drop_last() =~= hits@.take(i as int));
            assert(fv.take(i + 1).drop_last() =~= fv.take(i as int));
            assert(fv.take(i + 1).last() == f@);
            s.append("  ");
            s.append(f.as_str());
            s.append(":");
            push_decimal(&mut s, *l);
            s.append("\n");
            if !contains_string(&files, f.as_str()) {
                let ghost before = string_views(files@);
                files.push(f.clone());
                assert(string_views(files@) =~= before.push(f@));
            }
            i = i + 1;
        }
        assert(hits@.take(i as int) =~= hits@);
        assert(fv.take(i as int) =~= fv);
        s.append("\n");
        push_decimal(&mut s, files.len());
        s.append(" files reference this file.\n");
    }
    write_str(w, s.as_str());
    Ok(())
}

/// 1-based line of byte offset `byte_offset` (offsets past the end count as the end).
pub fn byte_offset_to_line(content: &str, byte_offset: usize) -> (r: usize)
    requires
        content.spec_bytes().len() < usize::MAX,
    ensures
        r as int == line_at(content.spec_bytes(), byte_offset as int),
{
    line_of(content, byte_offset)
}

/// The canonical path a reference of `file` points at for `file refs`, if any:
/// standard links resolve against the file, wiki links by a unique stem, and
/// frontmatter and config paths drop their `$(anchor root)/` prefix; inline
/// code paths and `href` links are not counted.
pub open spec fn ref_target(rv: RefView, file: Seq<char>, files: Seq<String>) -> Option<Seq<char>> {
    match rv.2 {
        RefForm::Standard => Some(form1_target(file, rv.3)),
        RefForm::Wiki => {
            let m = stem_matches(files, encode_utf8(rv.3));
            if m.len() == 1 {
                Some(m[0])
            } else {
                None
            }
        },
        RefForm::Yaml | RefForm::Toml => Some(
            if starts_with_chars(rv.3, anchor_root_prefix()) {
                rv.3.skip(15)
            } else {
                rv.3
            },
        ),
        _ => None,
    }
}

/// The `(file, line)` hits of the references of one file that point at `target`.
pub open spec fn refs_to(
    rvs: Seq<RefView>,
    file: Seq<char>,
    b: Seq<u8>,
    target: Seq<char>,
    files: Seq<String>,
) -> Seq<(Seq<char>, int)>
    decreases rvs.len(),
{
    if rvs.len() == 0 {
        seq![]
    } else {
        let prev = refs_to(rvs.drop_last(), file, b, target, files);
        let rv = rvs.last();
        if ref_target(rv, file, files) == Some(target) {
            prev.push((file, line_at(b, rv.1.0)))
        } else {
            prev
        }
    }
}

/// The hits in one file's content of references that point at `target_canonical`.
pub fn file_ref_hits(
    file: &CanonicalPath,
    content: &str,
    target_canonical: &str,
    workspace_files: &[CanonicalPath],
) -> (r: Vec<(String, usize)>)
    requires
        content.spec_bytes().len() < usize::MAX,
    ensures
        r@.map_values(|h: (String, usize)| (h.0@, h.1 as int)) == refs_to(
            parsed_views(file@, content.spec_bytes()),
            file@,
            content.spec_bytes(),
            target_canonical@,
            workspace_files@,
        ),
{
    let refs = parse_references(file, content);
    let ghost b = content.spec_bytes();
    proof {
        lemma_parsed_views(refs@, file@, b);
    }
    let pre = "$(anchor root)/";
    proof {
        reveal_strlit("$(anchor root)/");
    }
    assert(pre@ =~= anchor_root_prefix());
    let mut out: Vec<(String, usize)> = Vec::new();
    let mut i: usize = 0;
    assert(ref_views(refs@.take(0)) =~= Seq::<RefView>::empty());
    while i < refs.len()
        invariant
            0 <= i <= refs@.len(),
            b == content.spec_bytes(),
            b.len() < usize::MAX,
            pre@ == anchor_root_prefix(),
            out@.map_values(|h: (String, usize)| (h.0@, h.1 as int)) == refs_to(
                ref_views(refs@.take(i as int)),
                file@,
                b,
                target_canonical@,
                workspace_files@,
            ),
        decreases refs@.len() - i,
    {
        let r = &refs[i];
        let ghost rvs = ref_views(refs@.take(i + 1));
        assert(rvs.drop_last() =~= ref_views(refs@.take(i as int)));
        assert(rvs.last() == ref_view(*r));
        let canonical: Option<String> = match r.form {
            RefForm::Standard => Some(resolve_form1(file, r.target_raw.as_str())),
            RefForm::Wiki => match resolve_form2(r.target_raw.as_str(), workspace_files) {
                ResolveResult::Resolved(p) => Some(p),
                _ => None,
            },
            RefForm::Yaml | RefForm::Toml => {
                let t = r.target_raw.as_str();
                if starts_with_str(t, pre) {
                    let s = t.substring_char(15, t.unicode_len());
                    assert(s@ =~= t@.skip(15));
                    Some(s.to_owned())
                } else {
                    Some(t.to_owned())
                }
            },
            _ => None,
        };
        match canonical {
            Some(c) => {
                if crate::text::str_eq(c.as_str(), target_canonical) {
                    let line = line_of(content, r.span.0);
                    let ghost before = out@.map_values(|h: (String, usize)| (h.0@, h.1 as int));
                    out.push((file.clone(), line));
                    assert(out@.map_values(|h: (String, usize)| (h.0@, h.1 as int)) =~= before.push(
                        (file@, line as int),
                    ));
                }
            },
            None => {},
        }
        i = i + 1;
    }
    assert(refs@.take(i as int) =~= refs@);
    out
}

} // verus!
