//! The decisions of `anchor apply` around the rewrite pipeline: the pre-move
//! path set, the move maps, the preflight and already-applied checks, and
//! the classification of broken references after the rewrite.

use vstd::prelude::*;
use vstd::string::*;
use crate::acked::AckedRefs;
use crate::diagnostics::{broken_ref_text, format_broken_ref};
use crate::diff::{closest, suggest_similar};
use crate::fm_schema::{key_index, lemma_key_index};
use crate::fmt::{dec, push_decimal};
use crate::plan::{Op, Plan};
use crate::suggest::suggestions_spec;
use crate::text::{str_eq, string_views};
use crate::transaction::{starts_with_chars, starts_with_str};

verus! {

broadcast use vstd::seq::group_seq_axioms;

// ───────────────────────── pre-move paths ─────────────────────────

/// `p` is `f` or a directory above it: the text before one of its `/`.
pub open spec fn is_path_or_ancestor(f: Seq<char>, p: Seq<char>) -> bool {
    p == f || exists|i: int| 0 <= i < f.len() && f[i] == '/' && #[trigger] f.take(i) == p
}

/// Every workspace path before the moves: the files and all their ancestor
/// directories, each once.
pub fn build_pre_move_paths(files: &Vec<String>) -> (r: Vec<String>)
    ensures
        string_views(r@).no_duplicates(),
        forall|p: Seq<char>|
            #![trigger string_views(r@).contains(p)]
            string_views(r@).contains(p) <==> exists|k: int| 0 <= k < files@.len() && is_path_or_ancestor(#[trigger] files@[k]@, p),
{
    let mut out: Vec<String> = Vec::new();
    let mut k: usize = 0;
    while k < files.len()
        invariant
            k <= files@.len(),
            string_views(out@).no_duplicates(),
            forall|p: Seq<char>|
                #![trigger string_views(out@).contains(p)]
                string_views(out@).contains(p) <==> exists|q: int| 0 <= q < k && is_path_or_ancestor(#[trigger] files@[q]@, p),
        decreases files@.len() - k,
    {
        let f = files[k].as_str();
        let n = f.unicode_len();
        // the file itself, then each prefix before a `/`, right to left
        let ghost before = string_views(out@);
        add_unique(&mut out, f);
        let mut i: usize = n;
        while i > 0
            invariant
                n == f@.len(),
                i <= n,
                string_views(out@).no_duplicates(),
                forall|p: Seq<char>|
                    #![trigger string_views(out@).contains(p)]
                    string_views(out@).contains(p) <==> (before.contains(p) || p == f@ || exists|j: int|
                        i <= j < n && f@[j] == '/' && #[trigger] f@.take(j) == p),
            decreases i,
        {
            let ghost mid = string_views(out@);
            if f.get_char(i - 1) == '/' {
                let pre = f.substring_char(0, i - 1);
                assert(pre@ =~= f@.take(i - 1));
                add_unique(&mut out, pre);
            }
            assert forall|p: Seq<char>|
                #![trigger string_views(out@).contains(p)]
                string_views(out@).contains(p) <==> (before.contains(p) || p == f@ || exists|j: int|
                    i - 1 <= j < n && f@[j] == '/' && #[trigger] f@.take(j) == p) by {
                if exists|j: int| i - 1 <= j < n && f@[j] == '/' && #[trigger] f@.take(j) == p {
                    let j = choose|j: int| i - 1 <= j < n && f@[j] == '/' && #[trigger] f@.take(j) == p;
                    if j >= i {
                        assert(exists|j2: int| i <= j2 < n && f@[j2] == '/' && #[trigger] f@.take(j2) == p);
                        assert(mid.contains(p));
                    } else {
                        assert(j == i - 1);
                        assert(string_views(out@).contains(f@.take(i - 1)));
                    }
                }
                if string_views(out@).contains(p) && !mid.contains(p) {
                    assert(f@[i - 1] == '/' && p == f@.take(i - 1));
                    assert(f@.take(i - 1) == p);
                }
                if mid.contains(p) && !before.contains(p) && p != f@ {
                    let j = choose|j: int| i <= j < n && f@[j] == '/' && #[trigger] f@.take(j) == p;
                    assert(i - 1 <= j < n && f@[j] == '/' && f@.take(j) == p);
                }
            }
            i = i - 1;
        }
        assert forall|p: Seq<char>|
            #![trigger string_views(out@).contains(p)]
            string_views(out@).contains(p) <==> exists|q: int| 0 <= q < k + 1 && is_path_or_ancestor(#[trigger] files@[q]@, p) by {
            if string_views(out@).contains(p) && !before.contains(p) {
                if p != f@ {
                    let j = choose|j: int| 0 <= j < n && f@[j] == '/' && #[trigger] f@.take(j) == p;
                    assert(0 <= j < f@.len() && f@[j] == '/' && f@.take(j) == p);
                }
                assert(is_path_or_ancestor(files@[k as int]@, p));
            }
            if exists|q: int| 0 <= q < k + 1 && is_path_or_ancestor(#[trigger] files@[q]@, p) {
                let q = choose|q: int| 0 <= q < k + 1 && is_path_or_ancestor(#[trigger] files@[q]@, p);
                if q == k {
                    if p != f@ {
                        let j = choose|j: int| 0 <= j < f@.len() && f@[j] == '/' && #[trigger] f@.take(j) == p;
                        assert(0 <= j < n && f@[j] == '/' && f@.take(j) == p);
                    }
                }
            }
        }
        k = k + 1;
    }
    out
}

fn add_unique(out: &mut Vec<String>, s: &str)
    requires
        string_views(old(out)@).no_duplicates(),
    ensures
        string_views(final(out)@).no_duplicates(),
        forall|p: Seq<char>|
            #![trigger string_views(final(out)@).contains(p)]
            string_views(final(out)@).contains(p) <==> (string_views(old(out)@).contains(p) || p == s@),
{
    if crate::fm_audit::contains_str(out, s) {
        return;
    }
    let ghost before = string_views(out@);
    out.push(s.to_owned());
    assert(string_views(out@) =~= before.push(s@));
    assert forall|p: Seq<char>| string_views(out@).contains(p) <==> (before.contains(p) || p == s@) by {
        if string_views(out@).contains(p) {
            let j = choose|j: int| 0 <= j < string_views(out@).len() && string_views(out@)[j] == p;
            if j < before.len() {
                assert(before[j] == p);
            }
        }
        if before.contains(p) {
            let j = choose|j: int| 0 <= j < before.len() && before[j] == p;
            assert(string_views(out@)[j] == p);
        }
        if p == s@ {
            assert(string_views(out@)[before.len() as int] == p);
        }
    }
}

// ───────────────────────── move maps ─────────────────────────

pub open spec fn map_view(v: Seq<(String, String)>) -> Seq<(Seq<char>, Seq<char>)> {
    v.map_values(|e: (String, String)| (e.0@, e.1@))
}

/// Insert `k -> v`, replacing the value of an existing `k` in place.
pub open spec fn put(m: Seq<(Seq<char>, Seq<char>)>, k: Seq<char>, v: Seq<char>) -> Seq<(Seq<char>, Seq<char>)> {
    let i = key_index(m, k, 0);
    if 0 <= i < m.len() {
        m.update(i, (k, v))
    } else {
        m.push((k, v))
    }
}

/// The forward (source to destination) and reverse maps of the first `n`
/// operations' moves; a later move of the same path wins.
pub open spec fn maps_upto(ops: Seq<Op>, n: int) -> (Seq<(Seq<char>, Seq<char>)>, Seq<(Seq<char>, Seq<char>)>)
    decreases n,
{
    if n <= 0 || n > ops.len() {
        (seq![], seq![])
    } else {
        let prev = maps_upto(ops, n - 1);
        match ops[n - 1] {
            Op::Move { src, dst } => (put(prev.0, src@, dst@), put(prev.1, dst@, src@)),
            _ => prev,
        }
    }
}

fn put_exec(m: &mut Vec<(String, String)>, k: &String, v: &String)
    ensures
        map_view(final(m)@) == put(map_view(old(m)@), k@, v@),
{
    let ghost mv = map_view(m@);
    proof {
        lemma_key_index(mv, k@, 0);
    }
    let mut i: usize = 0;
    while i < m.len()
        invariant
            mv == map_view(m@),
            mv == map_view(old(m)@),
            i <= m@.len(),
            key_index(mv, k@, i as int) == key_index(mv, k@, 0),
        decreases m@.len() - i,
    {
        if str_eq(m[i].0.as_str(), k.as_str()) {
            assert(key_index(mv, k@, i as int) == i);
            m.set(i, (k.clone(), v.clone()));
            assert(map_view(m@) =~= mv.update(i as int, (k@, v@)));
            return;
        }
        i = i + 1;
    }
    assert(key_index(mv, k@, i as int) == mv.len());
    m.push((k.clone(), v.clone()));
    assert(map_view(m@) =~= mv.push((k@, v@)));
}

/// The forward and reverse maps of the plan's moves.
pub fn build_virtual_maps(ops: &Vec<Op>) -> (r: (Vec<(String, String)>, Vec<(String, String)>))
    ensures
        (map_view(r.0@), map_view(r.1@)) == maps_upto(ops@, ops@.len() as int),
{
    let mut fwd: Vec<(String, String)> = Vec::new();
    let mut rev: Vec<(String, String)> = Vec::new();
    let mut i: usize = 0;
    while i < ops.len()
        invariant
            i <= ops@.len(),
            (map_view(fwd@), map_view(rev@)) == maps_upto(ops@, i as int),
        decreases ops@.len() - i,
    {
        match &ops[i] {
            Op::Move { src, dst } => {
                put_exec(&mut fwd, src, dst);
                put_exec(&mut rev, dst, src);
            },
            _ => {},
        }
        i = i + 1;
    }
    (fwd, rev)
}

// ───────────────────────── preflight ─────────────────────────

/// The preflight verdict on the first `n` operations; `disk[i]` tells
/// whether operation `i`'s source and destination exist.
pub open spec fn preflight_upto(ops: Seq<Op>, disk: Seq<(bool, bool)>, files: Seq<String>, n: int) -> Option<Seq<char>>
    decreases n,
{
    if n <= 0 || n > ops.len() {
        None
    } else {
        match preflight_upto(ops, disk, files, n - 1) {
            Some(e) => Some(e),
            None => match ops[n - 1] {
                Op::Move { src, dst } => if !disk[n - 1].0 {
                    Some(
                        "preflight failed: src not found: "@ + src@ + match closest(
                            vstd::utf8::encode_utf8(src@),
                            files,
                        ) {
                            Some(j) => "\n  similar: "@ + files[j]@,
                            None => seq![],
                        },
                    )
                } else if disk[n - 1].1 {
                    Some("preflight failed: dst already exists: "@ + dst@)
                } else {
                    None
                },
                _ => None,
            },
        }
    }
}

proof fn lemma_preflight_stays(ops: Seq<Op>, disk: Seq<(bool, bool)>, files: Seq<String>, k: int, m: int)
    requires
        0 <= k <= m <= ops.len(),
        preflight_upto(ops, disk, files, k) is Some,
    ensures
        preflight_upto(ops, disk, files, m) == preflight_upto(ops, disk, files, k),
    decreases m - k,
{
    if m > k {
        lemma_preflight_stays(ops, disk, files, k, m - 1);
    }
}

/// Check every move before anything changes: its source exists and its
/// destination does not. The first failure is reported, with the closest
/// workspace file when the source is missing.
pub fn preflight(plan: &Plan, disk: &Vec<(bool, bool)>, workspace_files: &Vec<String>) -> (r: Result<(), String>)
    requires
        disk@.len() == plan.ops@.len(),
    ensures
        match r {
            Ok(()) => preflight_upto(plan.ops@, disk@, workspace_files@, plan.ops@.len() as int) is None,
            Err(e) => preflight_upto(plan.ops@, disk@, workspace_files@, plan.ops@.len() as int) == Some(e@),
        },
{
    proof {
        reveal_strlit("preflight failed: src not found: ");
        reveal_strlit("\n  similar: ");
        reveal_strlit("preflight failed: dst already exists: ");
    }
    let mut i: usize = 0;
    while i < plan.ops.len()
        invariant
            disk@.len() == plan.ops@.len(),
            i <= plan.ops@.len(),
            preflight_upto(plan.ops@, disk@, workspace_files@, i as int) is None,
        decreases plan.ops@.len() - i,
    {
        match &plan.ops[i] {
            Op::Move { src, dst } => {
                let (src_on_disk, dst_on_disk) = disk[i];
                if !src_on_disk {
                    let src_str = src.as_str();
                    let suggestions = suggest_similar(src_str, workspace_files.as_slice());
                    let ghost near = closest(vstd::utf8::encode_utf8(src@), workspace_files@);
                    assert(src_str.spec_bytes() == vstd::utf8::encode_utf8(src@));
                    let mut msg = "preflight failed: src not found: ".to_owned();
                    msg.append(src.as_str());
                    let ghost head = msg@;
                    if suggestions.len() > 0 {
                        msg.append("\n  similar: ");
                        assert(suggestions@.map_values(|s: String| s@)[0] == suggestions@[0]@);
                        msg.append(suggestions[0].as_str());
                        assert(suggestions@.map_values(|s: String| s@).len() > 0);
                        assert(near is Some);
                        assert(msg@ == head + ("\n  similar: "@ + workspace_files@[near->0]@));
                    } else {
                        assert(suggestions@.map_values(|s: String| s@).len() == 0);
                        assert(near is None);
                        assert(msg@ == head + Seq::<char>::empty());
                    }
                    proof {
                        assert(preflight_upto(plan.ops@, disk@, workspace_files@, i + 1) == Some(msg@));
                        lemma_preflight_stays(plan.ops@, disk@, workspace_files@, i + 1, plan.ops@.len() as int);
                    }
                    return Err(msg);
                }
                if dst_on_disk {
                    let mut msg = "preflight failed: dst already exists: ".to_owned();
                    msg.append(dst.as_str());
                    proof {
                        lemma_preflight_stays(plan.ops@, disk@, workspace_files@, i + 1, plan.ops@.len() as int);
                    }
                    return Err(msg);
                }
            },
            _ => {},
        }
        i = i + 1;
    }
    Ok(())
}

/// A plan has been applied already when it has moves and every move's
/// source is gone and its destination present.
pub open spec fn applied_spec(ops: Seq<Op>, disk: Seq<(bool, bool)>) -> bool {
    (exists|i: int| 0 <= i < ops.len() && (#[trigger] ops[i]) is Move) && forall|i: int|
        0 <= i < ops.len() && (#[trigger] ops[i]) is Move ==> !disk[i].0 && disk[i].1
}

/// Whether the plan's moves all look done on disk (`disk[i]`: source and
/// destination of operation `i` exist).
pub fn is_already_applied(plan: &Plan, disk: &Vec<(bool, bool)>) -> (r: bool)
    requires
        disk@.len() == plan.ops@.len(),
    ensures
        r == applied_spec(plan.ops@, disk@),
{
    let mut any = false;
    let mut i: usize = 0;
    while i < plan.ops.len()
        invariant
            disk@.len() == plan.ops@.len(),
            i <= plan.ops@.len(),
            any == exists|q: int| 0 <= q < i && (#[trigger] plan.ops@[q]) is Move,
            forall|q: int| 0 <= q < i && (#[trigger] plan.ops@[q]) is Move ==> !disk@[q].0 && disk@[q].1,
        decreases plan.ops@.len() - i,
    {
        match &plan.ops[i] {
            Op::Move { .. } => {
                let (s, d) = disk[i];
                if s || !d {
                    return false;
                }
                any = true;
            },
            _ => {},
        }
        i = i + 1;
    }
    any
}

// ───────────────────────── broken references after the rewrite ─────────────────────────

/// `file` is a path a move put in place: a reverse-map key or a path under one.
pub open spec fn moved_spec(file: Seq<char>, rev: Seq<(Seq<char>, Seq<char>)>) -> bool {
    exists|i: int| 0 <= i < rev.len() && (file == (#[trigger] rev[i]).0 || starts_with_chars(file, rev[i].0.push('/')))
}

/// Whether `file` sits where a move put something.
pub fn was_moved(file: &str, rev: &Vec<(String, String)>) -> (r: bool)
    ensures
        r == moved_spec(file@, map_view(rev@)),
{
    let ghost mv = map_view(rev@);
    let mut i: usize = 0;
    while i < rev.len()
        invariant
            mv == map_view(rev@),
            i <= rev@.len(),
            forall|q: int| 0 <= q < i ==> !(file@ == (#[trigger] mv[q]).0 || starts_with_chars(file@, mv[q].0.push('/'))),
        decreases rev@.len() - i,
    {
        let k = rev[i].0.as_str();
        let mut with_slash = k.to_owned();
        crate::text::push_char(&mut with_slash, '/');
        if str_eq(file, k) || starts_with_str(file, with_slash.as_str()) {
            assert(file@ == mv[i as int].0 || starts_with_chars(file@, mv[i as int].0.push('/')));
            return true;
        }
        i = i + 1;
    }
    false
}

/// A broken reference: the file, the line, and the target as written.
pub type BrokenView = (Seq<char>, nat, Seq<char>);

pub open spec fn broken_views(v: Seq<(String, usize, String)>) -> Seq<BrokenView> {
    v.map_values(|b: (String, usize, String)| (b.0@, b.1 as nat, b.2@))
}

/// The references of `b` that the acked list excuses (`acked == true`) or not.
pub open spec fn acked_part(b: Seq<BrokenView>, known: Set<(Seq<char>, usize)>, acked: bool) -> Seq<BrokenView>
    decreases b.len(),
{
    if b.len() == 0 {
        seq![]
    } else {
        let prev = acked_part(b.drop_last(), known, acked);
        let x = b.last();
        if known.contains((x.0, x.1 as usize)) == acked {
            prev.push(x)
        } else {
            prev
        }
    }
}

/// What the validation after the rewrite concludes.
pub enum BrokenVerdict {
    /// Every broken reference is acknowledged: the warnings to print.
    Allowed(Vec<String>),
    /// Some are not: the report to print before rolling back.
    Rejected(String),
}

pub open spec fn warning_text(b: BrokenView) -> Seq<char> {
    "⚠  Allowing known broken ref: "@ + b.0 + ":"@ + dec(b.1) + "  (acked)"@
}

/// The report of the unacknowledged references, each with the closest of
/// the first `n` workspace files.
pub open spec fn rejected_text(un: Seq<BrokenView>, files: Seq<String>) -> Seq<char> {
    "BROKEN REFERENCES AFTER REWRITE ("@ + dec(un.len()) + "):\n\n"@ + report_lines(un, files, un.len() as int)
}

pub open spec fn report_lines(un: Seq<BrokenView>, files: Seq<String>, n: int) -> Seq<char>
    decreases n,
{
    if n <= 0 || n > un.len() {
        seq![]
    } else {
        let b = un[n - 1];
        report_lines(un, files, n - 1) + broken_ref_text(
            b.0,
            b.1,
            b.2,
            suggestions_spec(vstd::utf8::encode_utf8(b.2), files),
        )
    }
}

/// The first 200 workspace files, the candidates of the suggestions.
pub open spec fn capped_files(files: Seq<String>) -> Seq<String> {
    if files.len() <= 200 {
        files
    } else {
        files.take(200)
    }
}

/// Classify the broken references found after the rewrite: all
/// acknowledged gives their warnings; otherwise the report of the others.
pub fn classify_broken(broken: &Vec<(String, usize, String)>, acked: &AckedRefs, workspace_files: &Vec<String>) -> (r: BrokenVerdict)
    requires
        forall|i: int| 0 <= i < broken@.len() ==> vstd::utf8::encode_utf8((#[trigger] broken@[i]).2@).len() < usize::MAX,
    ensures
        ({
            let bv = broken_views(broken@);
            let un = acked_part(bv, acked@, false);
            match r {
                BrokenVerdict::Allowed(w) => un.len() == 0 && string_views(w@) == acked_part(bv, acked@, true).map_values(
                    |b: BrokenView| warning_text(b),
                ),
                BrokenVerdict::Rejected(t) => un.len() > 0 && t@ == rejected_text(un, capped_files(workspace_files@)),
            }
        }),
{
    proof {
        reveal_strlit("⚠  Allowing known broken ref: ");
        reveal_strlit(":");
        reveal_strlit("  (acked)");
        reveal_strlit("BROKEN REFERENCES AFTER REWRITE (");
        reveal_strlit("):\n\n");
    }
    let ghost bv = broken_views(broken@);
    let mut warnings: Vec<String> = Vec::new();
    let mut unacked: Vec<usize> = Vec::new();
    let mut i: usize = 0;
    while i < broken.len()
        invariant
            bv == broken_views(broken@),
            i <= broken@.len(),
            string_views(warnings@) == acked_part(bv.take(i as int), acked@, true).map_values(|b: BrokenView| warning_text(b)),
            unacked@.map_values(|j: usize| bv[j as int]) == acked_part(bv.take(i as int), acked@, false),
            forall|q: int| 0 <= q < unacked@.len() ==> (#[trigger] unacked@[q]) < i,
        decreases broken@.len() - i,
    {
        assert(bv.take(i + 1).drop_last() =~= bv.take(i as int));
        assert(bv.take(i + 1).last() == bv[i as int]);
        let (file, line, _) = (&broken[i].0, broken[i].1, &broken[i].2);
        if acked.contains(file.as_str(), line) {
            let mut w = "⚠  Allowing known broken ref: ".to_owned();
            w.append(file.as_str());
            w.append(":");
            push_decimal(&mut w, line);
            w.append("  (acked)");
            let ghost before = string_views(warnings@);
            warnings.push(w);
            assert(string_views(warnings@) =~= before.push(warning_text(bv[i as int])));
            assert(acked_part(bv.take(i + 1), acked@, false) == acked_part(bv.take(i as int), acked@, false));
        } else {
            let ghost before = unacked@.map_values(|j: usize| bv[j as int]);
            unacked.push(i);
            assert(unacked@.map_values(|j: usize| bv[j as int]) =~= before.push(bv[i as int]));
        }
        i = i + 1;
    }
    assert(bv.take(i as int) =~= bv);
    if unacked.len() == 0 {
        return BrokenVerdict::Allowed(warnings);
    }
    let ghost un = acked_part(bv, acked@, false);
    let cap: usize = if workspace_files.len() <= 200 {
        workspace_files.len()
    } else {
        200
    };
    let all = workspace_files.as_slice();
    let capped = &all[0..cap];
    assert(capped@ =~= capped_files(workspace_files@));
    let mut t = "BROKEN REFERENCES AFTER REWRITE (".to_owned();
    push_decimal(&mut t, unacked.len());
    t.append("):\n\n");
    let ghost head = t@;
    let mut k: usize = 0;
    while k < unacked.len()
        invariant
            bv == broken_views(broken@),
            forall|q: int| 0 <= q < broken@.len() ==> vstd::utf8::encode_utf8((#[trigger] broken@[q]).2@).len() < usize::MAX,
            unacked@.map_values(|j: usize| bv[j as int]) == un,
            forall|q: int| 0 <= q < unacked@.len() ==> (#[trigger] unacked@[q]) < broken@.len(),
            capped@ == capped_files(workspace_files@),
            k <= unacked@.len(),
            t@ == head + report_lines(un, capped@, k as int),
        decreases unacked@.len() - k,
    {
        let j = unacked[k];
        assert(un[k as int] == bv[j as int]);
        let piece = format_broken_ref(broken[j].0.as_str(), broken[j].1, broken[j].2.as_str(), capped);
        t.append(piece.as_str());
        k = k + 1;
    }
    BrokenVerdict::Rejected(t)
}

} // verus!
