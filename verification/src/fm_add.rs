//! `frontmatter add-required`: which files get their safe defaults, what the
//! gap report lists, and when the run stops with an error.

use vstd::prelude::*;
use vstd::string::*;
use crate::doc_values::{get_str, yaml_get, yaml_parsed, yaml_str, YamlValue};
use crate::fm_fill::{apply_auto_defaults, appended, defaults_added, gaps_spec};
use crate::fm_schema::{conds_view, SchemaRules};
use crate::fmt::{dec, push_decimal};
use crate::frontmatter::{parse_file, split_fm_spec, ParsedFile};
use crate::text::string_views;

verus! {

broadcast use vstd::seq::group_seq_axioms;

/// A file as the run sees it: its path, and its frontmatter and body, or why
/// it could not be read.
pub type FileSeen = (Seq<char>, Result<(Option<YamlValue>, Seq<char>), Seq<char>>);

/// The text value of `type` in a frontmatter.
pub open spec fn type_of(fm: Option<YamlValue>) -> Option<Seq<char>> {
    match fm {
        Some(m) => match yaml_get(m, "type"@) {
            Some(v) => yaml_str(v),
            None => None,
        },
        None => None,
    }
}

/// The file was read and its frontmatter names a type.
pub open spec fn typed(f: FileSeen) -> bool {
    f.1 matches Ok(x) && type_of(x.0) is Some
}

/// The first typed file at or after `i` (`fs.len()` when there is none).
pub open spec fn first_typed(fs: Seq<FileSeen>, i: int) -> int
    decreases fs.len() - i,
{
    if i < 0 || i >= fs.len() {
        fs.len() as int
    } else if typed(fs[i]) {
        i
    } else {
        first_typed(fs, i + 1)
    }
}

/// The line reporting that a file could not be read.
pub open spec fn read_error_line(path: Seq<char>, e: Seq<char>) -> Seq<char> {
    "error reading "@ + path + ": "@ + e
}

/// The read-error lines of the first `n` files.
pub open spec fn read_errors(fs: Seq<FileSeen>, n: int) -> Seq<Seq<char>>
    decreases n,
{
    if n <= 0 || n > fs.len() {
        seq![]
    } else {
        read_errors(fs, n - 1) + match fs[n - 1].1 {
            Err(e) => seq![read_error_line(fs[n - 1].0, e)],
            Ok(_) => seq![],
        }
    }
}

/// The positions of the typed files among the first `n`.
pub open spec fn typed_positions(fs: Seq<FileSeen>, n: int) -> Seq<int>
    decreases n,
{
    if n <= 0 || n > fs.len() {
        seq![]
    } else {
        typed_positions(fs, n - 1) + if typed(fs[n - 1]) {
            seq![n - 1]
        } else {
            seq![]
        }
    }
}

pub open spec fn hint_line() -> Seq<char> {
    "hint: use --auto to apply safe defaults, or --interactive for prompts"@
}

pub open spec fn abort_line(n: nat) -> Seq<char> {
    "error: "@ + dec(n) + " file(s) could not be read \u{2014} aborting"@
}

/// A file `add-required` rewrites: its new frontmatter, its body, and the
/// required fields of its type that still need a person.
pub struct Change {
    pub path: String,
    pub frontmatter: YamlValue,
    pub body: String,
    pub gaps: Vec<String>,
}

/// `new` is `fm` with the safe defaults of type `t` appended (a frontmatter
/// that is not a mapping stays as it is).
pub open spec fn filled(fm: YamlValue, t: Seq<char>, new: YamlValue) -> bool {
    match fm {
        YamlValue::Mapping(es) => new matches YamlValue::Mapping(out) && appended(es@, defaults_added(fm, t), out@),
        _ => new == fm,
    }
}

/// `c` is what the run makes of the typed file `f`.
pub open spec fn change_of(f: FileSeen, c: Change, conds: Seq<(Seq<char>, Seq<Seq<char>>)>) -> bool {
    &&& c.path@ == f.0
    &&& f.1 matches Ok(x)
    &&& c.body@ == x.1
    &&& x.0 matches Some(fm)
    &&& type_of(x.0) matches Some(t)
    &&& filled(fm, t, c.frontmatter)
    &&& string_views(c.gaps@) == gaps_spec(c.frontmatter, t, conds)
}

/// Path and gap list of each change.
pub open spec fn gap_view(cs: Seq<Change>) -> Seq<(Seq<char>, Seq<Seq<char>>)> {
    cs.map_values(|c: Change| (c.path@, string_views(c.gaps@)))
}

pub open spec fn gap_field_line(g: Seq<char>) -> Seq<char> {
    "    '"@ + g + "' \u{2014} non-deterministic; provide manually"@
}

/// The gap lines of the files that have gaps: the path, then one line per field.
pub open spec fn gap_lines(gs: Seq<(Seq<char>, Seq<Seq<char>>)>) -> Seq<Seq<char>>
    decreases gs.len(),
{
    if gs.len() == 0 {
        seq![]
    } else {
        gap_lines(gs.drop_last()) + if gs.last().1.len() > 0 {
            seq!["  "@ + gs.last().0] + gs.last().1.map_values(|g: Seq<char>| gap_field_line(g))
        } else {
            seq![]
        }
    }
}

/// How many files have gaps.
pub open spec fn gap_files(gs: Seq<(Seq<char>, Seq<Seq<char>>)>) -> nat
    decreases gs.len(),
{
    if gs.len() == 0 {
        0
    } else {
        gap_files(gs.drop_last()) + if gs.last().1.len() > 0 {
            1nat
        } else {
            0nat
        }
    }
}

/// The gap report printed before writing: nothing when no file has gaps.
pub open spec fn gap_report(gs: Seq<(Seq<char>, Seq<Seq<char>>)>) -> Seq<Seq<char>> {
    if gap_files(gs) == 0 {
        seq![]
    } else {
        seq!["GAP REPORT \u{2014} fields requiring human judgment (not auto-filled):"@] + gap_lines(gs) + seq![seq![]]
    }
}

/// The lines printed once every change is written.
pub open spec fn summary_spec(changes: nat, with_gaps: nat) -> Seq<Seq<char>> {
    seq!["\u{2713} add-required: updated "@ + dec(changes) + " file(s)."@] + if with_gaps > 0 {
        seq!["  "@ + dec(with_gaps) + " file(s) have non-deterministic fields requiring manual entry."@]
    } else {
        seq![]
    }
}

/// What an `add-required` run decides before it writes anything.
pub struct AddRequiredRun {
    /// 0 when the changes are to be written, 1 when the run stops.
    pub exit_code: i32,
    /// Lines for standard error, in order.
    pub errors: Vec<String>,
    /// The files to rewrite, in order.
    pub changes: Vec<Change>,
    /// The gap report, printed before writing.
    pub report: Vec<String>,
    /// The lines printed after every change is written.
    pub summary: Vec<String>,
}

/// The run over the files `fs` is `r`: without `auto`, the first typed file
/// stops it with the hint (after the read errors before it); otherwise a
/// file that could not be read stops it after all read errors; otherwise
/// every typed file gets its safe defaults, in order.
pub open spec fn add_required_ok(
    auto: bool,
    fs: Seq<FileSeen>,
    conds: Seq<(Seq<char>, Seq<Seq<char>>)>,
    r: AddRequiredRun,
) -> bool {
    let k = first_typed(fs, 0);
    let fails = read_errors(fs, fs.len() as int);
    if !auto && k < fs.len() {
        &&& r.exit_code == 1
        &&& string_views(r.errors@) == read_errors(fs, k) + seq![hint_line()]
        &&& r.changes@.len() == 0
        &&& r.report@.len() == 0
        &&& r.summary@.len() == 0
    } else if fails.len() > 0 {
        &&& r.exit_code == 1
        &&& string_views(r.errors@) == fails + seq![abort_line(fails.len())]
        &&& r.changes@.len() == 0
        &&& r.report@.len() == 0
        &&& r.summary@.len() == 0
    } else {
        let ps = typed_positions(fs, fs.len() as int);
        &&& r.exit_code == 0
        &&& r.errors@.len() == 0
        &&& r.changes@.len() == ps.len()
        &&& forall|j: int| 0 <= j < ps.len() ==> change_of(fs[ps[j]], #[trigger] r.changes@[j], conds)
        &&& string_views(r.report@) == gap_report(gap_view(r.changes@))
        &&& string_views(r.summary@) == summary_spec(r.changes@.len(), gap_files(gap_view(r.changes@)))
    }
}

/// How the run sees a parsed file.
pub open spec fn seen_of(p: (String, Result<ParsedFile, String>)) -> FileSeen {
    (
        p.0@,
        match p.1 {
            Ok(pf) => Ok((pf.frontmatter, pf.body@)),
            Err(e) => Err(e@),
        },
    )
}

/// How the run sees a file with its text: split and parsed as `parse_file` does.
pub open spec fn seen_of_text(f: (String, Result<String, String>)) -> FileSeen {
    (
        f.0@,
        match f.1 {
            Ok(c) => Ok(
                (
                    match split_fm_spec(c@).0 {
                        Some(fm) => yaml_parsed(fm),
                        None => None,
                    },
                    split_fm_spec(c@).1,
                ),
            ),
            Err(e) => Err(e@),
        },
    )
}

proof fn lemma_positions(fs: Seq<FileSeen>, n: int)
    requires
        0 <= n <= fs.len(),
    ensures
        typed_positions(fs, n).len() <= n,
        forall|j: int| 0 <= j < typed_positions(fs, n).len() ==> 0 <= #[trigger] typed_positions(fs, n)[j] < n,
    decreases n,
{
    if n > 0 {
        lemma_positions(fs, n - 1);
    }
}

proof fn lemma_first_typed(fs: Seq<FileSeen>, k: int, i: int)
    requires
        0 <= k <= i <= fs.len(),
        forall|j: int| k <= j < i ==> !typed(#[trigger] fs[j]),
    ensures
        first_typed(fs, k) == first_typed(fs, i),
    decreases i - k,
{
    if k < i {
        lemma_first_typed(fs, k + 1, i);
    }
}

/// Decide the `add-required` run over files already read and parsed.
pub fn add_required_parsed(auto: bool, parsed: Vec<(String, Result<ParsedFile, String>)>, schema: &SchemaRules) -> (r:
    AddRequiredRun)
    ensures
        add_required_ok(
            auto,
            parsed@.map_values(|p: (String, Result<ParsedFile, String>)| seen_of(p)),
            conds_view(schema.type_conditionals@),
            r,
        ),
{
    proof {
        reveal_strlit("type");
        reveal_strlit("error reading ");
        reveal_strlit(": ");
        reveal_strlit("hint: use --auto to apply safe defaults, or --interactive for prompts");
        reveal_strlit("error: ");
        reveal_strlit(" file(s) could not be read \u{2014} aborting");
    }
    let ghost fs = parsed@.map_values(|p: (String, Result<ParsedFile, String>)| seen_of(p));
    let ghost conds = conds_view(schema.type_conditionals@);
    let n = parsed.len();
    let mut rest = parsed;
    let mut errors: Vec<String> = Vec::new();
    let mut changes: Vec<Change> = Vec::new();
    let mut n_err: usize = 0;
    let mut i: usize = 0;
    assert(rest@.map_values(|p: (String, Result<ParsedFile, String>)| seen_of(p)) =~= fs.skip(0));
    while i < n
        invariant
            n == fs.len(),
            fs == parsed@.map_values(|p: (String, Result<ParsedFile, String>)| seen_of(p)),
            i <= n,
            rest@.map_values(|p: (String, Result<ParsedFile, String>)| seen_of(p)) == fs.skip(i as int),
            conds == conds_view(schema.type_conditionals@),
            !auto ==> forall|j: int| 0 <= j < i ==> !typed(#[trigger] fs[j]),
            string_views(errors@) == read_errors(fs, i as int),
            n_err == read_errors(fs, i as int).len(),
            n_err <= i,
            read_errors(fs, i as int).len() <= i,
            changes@.len() == typed_positions(fs, i as int).len(),
            forall|j: int|
                0 <= j < changes@.len() ==> change_of(fs[typed_positions(fs, i as int)[j]], #[trigger] changes@[j], conds),
        decreases n - i,
    {
        let ghost before = rest@;
        assert(before.len() == fs.skip(i as int).len());
        let (path, res) = rest.remove(0);
        assert(seen_of((path, res)) == fs[i as int]) by {
            assert(before[0] == (path, res));
            assert(before.map_values(|p: (String, Result<ParsedFile, String>)| seen_of(p))[0] == seen_of(before[0]));
            assert(fs.skip(i as int)[0] == fs[i as int]);
        }
        proof {
            lemma_positions(fs, i as int);
            lemma_positions(fs, i + 1);
        }
        assert(rest@.map_values(|p: (String, Result<ParsedFile, String>)| seen_of(p)) =~= fs.skip(i + 1)) by {
            assert(before.map_values(|p: (String, Result<ParsedFile, String>)| seen_of(p)).skip(1) =~= rest@.map_values(
                |p: (String, Result<ParsedFile, String>)| seen_of(p),
            ));
        }
        let ghost ps_before = typed_positions(fs, i as int);
        let ghost old_changes = changes@;
        match res {
            Err(e) => {
                let mut line = "error reading ".to_owned();
                line.append(path.as_str());
                line.append(": ");
                line.append(e.as_str());
                let ghost ev = string_views(errors@);
                errors.push(line);
                assert(string_views(errors@) =~= ev.push(read_error_line(path@, e@)));
                n_err = n_err + 1;
                assert(read_errors(fs, i + 1) =~= read_errors(fs, i as int) + seq![read_error_line(path@, e@)]);
                assert(typed_positions(fs, i + 1) =~= ps_before);
            },
            Ok(pf) => {
                let ParsedFile { path: _, frontmatter, raw_fm: _, body } = pf;
                assert(read_errors(fs, i + 1) =~= read_errors(fs, i as int));
                match frontmatter {
                    None => {
                        assert(!typed(fs[i as int]));
                        assert(typed_positions(fs, i + 1) =~= ps_before);
                    },
                    Some(fm) => {
                        let t = match get_str(&fm, "type") {
                            Some(s) => Some(s.to_owned()),
                            None => None,
                        };
                        match t {
                            None => {
                                assert(!typed(fs[i as int]));
                                assert(typed_positions(fs, i + 1) =~= ps_before);
                            },
                            Some(t) => {
                                assert(typed(fs[i as int]));
                                if !auto {
                                    proof {
                                        lemma_first_typed(fs, 0, i as int);
                                    }
                                    let ghost ev = string_views(errors@);
                                    errors.push(
                                        "hint: use --auto to apply safe defaults, or --interactive for prompts".to_owned(),
                                    );
                                    assert(string_views(errors@) =~= ev.push(hint_line()));
                                    assert(first_typed(fs, 0) == i);
                                    assert(string_views(errors@) =~= read_errors(fs, first_typed(fs, 0)) + seq![
                                        hint_line(),
                                    ]);
                                    return AddRequiredRun {
                                        exit_code: 1,
                                        errors,
                                        changes: Vec::new(),
                                        report: Vec::new(),
                                        summary: Vec::new(),
                                    };
                                }
                                let (new_fm, gaps) = apply_auto_defaults(fm, t.as_str(), schema);
                                let c = Change { path, frontmatter: new_fm, body, gaps };
                                assert(change_of(fs[i as int], c, conds));
                                changes.push(c);
                                assert(typed_positions(fs, i + 1) =~= ps_before.push(i as int));
                                assert forall|j: int| 0 <= j < changes@.len() implies change_of(
                                    fs[typed_positions(fs, i + 1)[j]],
                                    #[trigger] changes@[j],
                                    conds,
                                ) by {
                                    if j < old_changes.len() {
                                        assert(changes@[j] == old_changes[j]);
                                    }
                                }
                            },
                        }
                    },
                }
            },
        }
        i = i + 1;
    }
    proof {
        if !auto {
            lemma_first_typed(fs, 0, n as int);
        }
    }
    if n_err > 0 {
        let mut line = "error: ".to_owned();
        push_decimal(&mut line, n_err);
        line.append(" file(s) could not be read \u{2014} aborting");
        let ghost ev = string_views(errors@);
        errors.push(line);
        assert(string_views(errors@) =~= ev.push(abort_line(n_err as nat)));
        assert(string_views(errors@) =~= read_errors(fs, fs.len() as int) + seq![
            abort_line(read_errors(fs, fs.len() as int).len()),
        ]);
        assert(auto || first_typed(fs, 0) == fs.len());
        return AddRequiredRun { exit_code: 1, errors, changes: Vec::new(), report: Vec::new(), summary: Vec::new() };
    }
    let (report, with_gaps) = gap_report_lines(&changes);
    let summary = summary_lines(changes.len(), with_gaps);
    AddRequiredRun { exit_code: 0, errors, changes, report, summary }
}

/// The gap report of `cs`, and how many files have gaps.
fn gap_report_lines(cs: &Vec<Change>) -> (r: (Vec<String>, usize))
    ensures
        string_views(r.0@) == gap_report(gap_view(cs@)),
        r.1 == gap_files(gap_view(cs@)),
{
    proof {
        reveal_strlit("GAP REPORT \u{2014} fields requiring human judgment (not auto-filled):");
        reveal_strlit("  ");
        reveal_strlit("    '");
        reveal_strlit("' \u{2014} non-deterministic; provide manually");
        reveal_strlit("");
    }
    let ghost gv = gap_view(cs@);
    let mut lines: Vec<String> = Vec::new();
    let mut count: usize = 0;
    let mut i: usize = 0;
    while i < cs.len()
        invariant
            gv == gap_view(cs@),
            i <= cs@.len(),
            string_views(lines@) == gap_lines(gv.take(i as int)),
            count == gap_files(gv.take(i as int)),
            count <= i,
        decreases cs@.len() - i,
    {
        assert(gv.take(i + 1).drop_last() =~= gv.take(i as int));
        assert(gv.take(i + 1).last() == gv[i as int]);
        let c = &cs[i];
        if c.gaps.len() > 0 {
            let mut head = "  ".to_owned();
            head.append(c.path.as_str());
            let ghost start = string_views(lines@);
            lines.push(head);
            let ghost gs = string_views(c.gaps@);
            let mut j: usize = 0;
            assert(string_views(lines@) =~= start + seq!["  "@ + c.path@] + gs.take(0).map_values(
                |g: Seq<char>| gap_field_line(g),
            ));
            while j < c.gaps.len()
                invariant
                    gs == string_views(c.gaps@),
                    j <= c.gaps@.len(),
                    string_views(lines@) == start + seq!["  "@ + c.path@] + gs.take(j as int).map_values(
                        |g: Seq<char>| gap_field_line(g),
                    ),
                decreases c.gaps@.len() - j,
            {
                let mut l = "    '".to_owned();
                l.append(c.gaps[j].as_str());
                l.append("' \u{2014} non-deterministic; provide manually");
                let ghost lv = string_views(lines@);
                lines.push(l);
                assert(gs.take(j + 1).map_values(|g: Seq<char>| gap_field_line(g)) =~= gs.take(j as int).map_values(
                    |g: Seq<char>| gap_field_line(g),
                ).push(gap_field_line(gs[j as int])));
                assert(string_views(lines@) =~= lv.push(gap_field_line(gs[j as int])));
                j = j + 1;
            }
            assert(gs.take(j as int) =~= gs);
            count = count + 1;
        }
        i = i + 1;
    }
    assert(gv.take(i as int) =~= gv);
    if count == 0 {
        let empty: Vec<String> = Vec::new();
        assert(string_views(empty@) =~= Seq::<Seq<char>>::empty());
        return (empty, 0);
    }
    let mut out: Vec<String> = Vec::new();
    out.push("GAP REPORT \u{2014} fields requiring human judgment (not auto-filled):".to_owned());
    let mut k: usize = 0;
    let ghost lv = string_views(lines@);
    while k < lines.len()
        invariant
            lv == string_views(lines@),
            k <= lines@.len(),
            string_views(out@) == seq!["GAP REPORT \u{2014} fields requiring human judgment (not auto-filled):"@]
                + lv.take(k as int),
        decreases lines@.len() - k,
    {
        let ghost ov = string_views(out@);
        out.push(lines[k].clone());
        assert(lv.take(k + 1) =~= lv.take(k as int).push(lv[k as int]));
        assert(string_views(out@) =~= ov.push(lv[k as int]));
        k = k + 1;
    }
    assert(lv.take(k as int) =~= lv);
    let ghost ov = string_views(out@);
    let blank = "";
    assert(blank@ =~= Seq::<char>::empty());
    out.push(blank.to_owned());
    assert(string_views(out@) =~= ov.push(Seq::<char>::empty()));
    (out, count)
}

/// The lines printed after writing `changes` files, `with_gaps` of them with gaps.
fn summary_lines(changes: usize, with_gaps: usize) -> (r: Vec<String>)
    ensures
        string_views(r@) == summary_spec(changes as nat, with_gaps as nat),
{
    proof {
        reveal_strlit("\u{2713} add-required: updated ");
        reveal_strlit(" file(s).");
        reveal_strlit("  ");
        reveal_strlit(" file(s) have non-deterministic fields requiring manual entry.");
    }
    let mut out: Vec<String> = Vec::new();
    let mut first = "\u{2713} add-required: updated ".to_owned();
    push_decimal(&mut first, changes);
    first.append(" file(s).");
    out.push(first);
    if with_gaps > 0 {
        let mut second = "  ".to_owned();
        push_decimal(&mut second, with_gaps);
        second.append(" file(s) have non-deterministic fields requiring manual entry.");
        out.push(second);
    }
    assert(string_views(out@) =~= summary_spec(changes as nat, with_gaps as nat));
    out
}

/// Decide the `add-required` run over `files` (each path with its text, or
/// why it could not be read): the texts are split and parsed as `parse_file`
/// does, then the run goes as `add_required_parsed` states.
pub fn add_required(auto: bool, files: &Vec<(String, Result<String, String>)>, schema: &SchemaRules) -> (r: AddRequiredRun)
    ensures
        add_required_ok(
            auto,
            files@.map_values(|f: (String, Result<String, String>)| seen_of_text(f)),
            conds_view(schema.type_conditionals@),
            r,
        ),
{
    let ghost want = files@.map_values(|f: (String, Result<String, String>)| seen_of_text(f));
    let mut parsed: Vec<(String, Result<ParsedFile, String>)> = Vec::new();
    let mut i: usize = 0;
    while i < files.len()
        invariant
            want == files@.map_values(|f: (String, Result<String, String>)| seen_of_text(f)),
            i <= files@.len(),
            parsed@.map_values(|p: (String, Result<ParsedFile, String>)| seen_of(p)) == want.take(i as int),
        decreases files@.len() - i,
    {
        let (path, res) = &files[i];
        let item = match res {
            Ok(c) => (path.clone(), Ok(parse_file(path.as_str(), c.as_str()))),
            Err(e) => (path.clone(), Err(e.clone())),
        };
        assert(seen_of(item) == want[i as int]);
        let ghost pv = parsed@.map_values(|p: (String, Result<ParsedFile, String>)| seen_of(p));
        parsed.push(item);
        assert(parsed@.map_values(|p: (String, Result<ParsedFile, String>)| seen_of(p)) =~= pv.push(seen_of(item)));
        assert(want.take(i + 1) =~= want.take(i as int).push(want[i as int]));
        i = i + 1;
    }
    assert(want.take(i as int) =~= want);
    add_required_parsed(auto, parsed, schema)
}

} // verus!
