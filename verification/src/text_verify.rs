//! `text verify`: the occurrences of a search that no allow-list entry
//! (`file:line`) excuses, and the report of the check.

use vstd::prelude::*;
use vstd::string::*;
use crate::acked::{parse_usize, parse_usize_spec};
use crate::commands::{FindArgs, Occurrence, VerifyArgs};
use crate::fmt::{dec, push_decimal};
use crate::text::{lines, lines_spec, str_eq, string_views, trim, trim_spec};

verus! {

broadcast use vstd::seq::group_seq_axioms;

/// The index of the last `c` in `s`, or -1.
pub open spec fn last_of(s: Seq<char>, c: char) -> int
    decreases s.len(),
{
    if s.len() == 0 {
        -1
    } else if s.last() == c {
        s.len() - 1
    } else {
        last_of(s.drop_last(), c)
    }
}

proof fn lemma_last_of(s: Seq<char>, c: char)
    ensures
        -1 <= last_of(s, c) < s.len(),
        last_of(s, c) >= 0 ==> s[last_of(s, c)] == c,
        forall|j: int| last_of(s, c) < j < s.len() ==> s[j] != c,
    decreases s.len(),
{
    if s.len() > 0 && s.last() != c {
        lemma_last_of(s.drop_last(), c);
        assert forall|j: int| last_of(s, c) < j < s.len() implies s[j] != c by {
            if j < s.len() - 1 {
                assert(s[j] == s.drop_last()[j]);
            }
        }
    }
}

/// An allow-list entry `file:line`: split at the last `:`, a non-empty file
/// and a positive line number.
pub open spec fn allow_value_spec(s: Seq<char>) -> Option<(Seq<char>, int)> {
    let i = last_of(s, ':');
    if i < 0 || i == 0 {
        None
    } else {
        match parse_usize_spec(s.skip(i + 1)) {
            Some(n) => if n == 0 {
                None
            } else {
                Some((s.take(i), n))
            },
            None => None,
        }
    }
}

/// Parse an allow-list entry `file:line`.
pub fn parse_allow_value(s: &str) -> (r: Option<(String, usize)>)
    ensures
        match r {
            Some((f, n)) => allow_value_spec(s@) == Some((f@, n as int)),
            None => allow_value_spec(s@) is None,
        },
{
    let len = s.unicode_len();
    let mut i: usize = len;
    proof {
        lemma_last_of(s@, ':');
    }
    while i > 0 && s.get_char(i - 1) != ':'
        invariant
            len == s@.len(),
            i <= len,
            forall|j: int| i <= j < len ==> s@[j] != ':',
        decreases i,
    {
        i = i - 1;
    }
    proof {
        lemma_last_of(s@, ':');
        if i > 0 {
            assert(s@[i - 1] == ':');
            assert(last_of(s@, ':') == i - 1);
        } else {
            assert(last_of(s@, ':') == -1);
        }
    }
    if i <= 1 {
        return None;
    }
    let file = s.substring_char(0, i - 1);
    let rest = s.substring_char(i, len);
    assert(file@ =~= s@.take(i - 1));
    assert(rest@ =~= s@.skip(i as int));
    match parse_usize(rest) {
        Some(n) => if n == 0 {
            None
        } else {
            Some((file.to_owned(), n))
        },
        None => None,
    }
}

pub open spec fn allow_views(v: Seq<(String, usize)>) -> Seq<(Seq<char>, int)> {
    v.map_values(|p: (String, usize)| (p.0@, p.1 as int))
}

/// The allow-list from the text of the `--allow-from` file (its non-blank
/// trimmed lines) and the `--allow` values (trimmed), in that order, with a
/// warning for each value that is not `file:line`.
pub open spec fn allowlist_spec(from: Option<Seq<char>>, allow: Seq<Seq<char>>) -> (Seq<(Seq<char>, int)>, Seq<Seq<char>>) {
    let a = match from {
        Some(c) => file_entries(lines_spec(c), lines_spec(c).len() as int),
        None => (seq![], seq![]),
    };
    let b = arg_entries(allow, allow.len() as int);
    (a.0 + b.0, a.1 + b.1)
}

pub open spec fn file_entries(ls: Seq<Seq<char>>, n: int) -> (Seq<(Seq<char>, int)>, Seq<Seq<char>>)
    decreases n,
{
    if n <= 0 || n > ls.len() {
        (seq![], seq![])
    } else {
        let prev = file_entries(ls, n - 1);
        let t = trim_spec(ls[n - 1]);
        if t.len() == 0 {
            prev
        } else {
            match allow_value_spec(t) {
                Some(v) => (prev.0.push(v), prev.1),
                None => (prev.0, prev.1.push("warning: invalid --allow value: "@ + t)),
            }
        }
    }
}

pub open spec fn arg_entries(allow: Seq<Seq<char>>, n: int) -> (Seq<(Seq<char>, int)>, Seq<Seq<char>>)
    decreases n,
{
    if n <= 0 || n > allow.len() {
        (seq![], seq![])
    } else {
        let prev = arg_entries(allow, n - 1);
        match allow_value_spec(trim_spec(allow[n - 1])) {
            Some(v) => (prev.0.push(v), prev.1),
            None => (prev.0, prev.1.push("warning: invalid --allow value: "@ + allow[n - 1])),
        }
    }
}

fn warning_for(value: &str) -> (r: String)
    ensures
        r@ == "warning: invalid --allow value: "@ + value@,
{
    let mut m = "warning: invalid --allow value: ".to_owned();
    m.append(value);
    m
}

/// Build the allow-list from the `--allow-from` file's text and the `--allow`
/// values; returns the entries and the warnings to print.
pub fn allowlist(from_content: Option<&str>, allow: &Vec<String>) -> (r: (Vec<(String, usize)>, Vec<String>))
    ensures
        allow_views(r.0@) == allowlist_spec(
            match from_content {
                Some(c) => Some(c@),
                None => None,
            },
            string_views(allow@),
        ).0,
        string_views(r.1@) == allowlist_spec(
            match from_content {
                Some(c) => Some(c@),
                None => None,
            },
            string_views(allow@),
        ).1,
{
    let mut entries: Vec<(String, usize)> = Vec::new();
    let mut warnings: Vec<String> = Vec::new();
    match from_content {
        Some(c) => {
            let ls = lines(c);
            let ghost lv = string_views(ls@);
            let mut i: usize = 0;
            while i < ls.len()
                invariant
                    lv == string_views(ls@),
                    lv == lines_spec(c@),
                    i <= ls@.len(),
                    allow_views(entries@) == file_entries(lv, i as int).0,
                    string_views(warnings@) == file_entries(lv, i as int).1,
                decreases ls@.len() - i,
            {
                let t = trim(ls[i].as_str());
                assert(lv[i as int] == ls@[i as int]@);
                if t.unicode_len() > 0 {
                    match parse_allow_value(t) {
                        Some(v) => {
                            let ghost before = allow_views(entries@);
                            entries.push(v);
                            assert(allow_views(entries@) =~= before.push((v.0@, v.1 as int)));
                        },
                        None => {
                            let ghost before = string_views(warnings@);
                            warnings.push(warning_for(t));
                            proof {
                                reveal_strlit("warning: invalid --allow value: ");
                            }
                            assert(string_views(warnings@) =~= before.push(
                                "warning: invalid --allow value: "@ + t@,
                            ));
                        },
                    }
                }
                i = i + 1;
            }
        },
        None => {
            assert(allow_views(entries@) =~= Seq::<(Seq<char>, int)>::empty());
            assert(string_views(warnings@) =~= Seq::<Seq<char>>::empty());
        },
    }
    let ghost e0 = allow_views(entries@);
    let ghost w0 = string_views(warnings@);
    let ghost av = string_views(allow@);
    let mut k: usize = 0;
    while k < allow.len()
        invariant
            av == string_views(allow@),
            k <= allow@.len(),
            allow_views(entries@) == e0 + arg_entries(av, k as int).0,
            string_views(warnings@) == w0 + arg_entries(av, k as int).1,
        decreases allow@.len() - k,
    {
        let s = allow[k].as_str();
        assert(av[k as int] == s@);
        match parse_allow_value(trim(s)) {
            Some(v) => {
                let ghost before = allow_views(entries@);
                entries.push(v);
                assert(allow_views(entries@) =~= before.push((v.0@, v.1 as int)));
                assert(e0 + arg_entries(av, k + 1).0 =~= (e0 + arg_entries(av, k as int).0).push((v.0@, v.1 as int)));
            },
            None => {
                let ghost before = string_views(warnings@);
                warnings.push(warning_for(s));
                assert(string_views(warnings@) =~= before.push("warning: invalid --allow value: "@ + s@));
                assert(w0 + arg_entries(av, k + 1).1 =~= (w0 + arg_entries(av, k as int).1).push(
                    "warning: invalid --allow value: "@ + s@,
                ));
            },
        }
        k = k + 1;
    }
    (entries, warnings)
}

/// The occurrence at `o` is excused by the allow-list `allow`.
pub open spec fn allowed(allow: Seq<(Seq<char>, int)>, file: Seq<char>, line: int) -> bool {
    allow.contains((file, line))
}

/// The indices of the occurrences that the allow-list does not excuse, in order.
pub open spec fn violations_spec(occ: Seq<Occurrence>, allow: Seq<(Seq<char>, int)>, n: int) -> Seq<int>
    decreases n,
{
    if n <= 0 || n > occ.len() {
        seq![]
    } else {
        let prev = violations_spec(occ, allow, n - 1);
        if allowed(allow, occ[n - 1].file@, occ[n - 1].line as int) {
            prev
        } else {
            prev.push(n - 1)
        }
    }
}

fn is_allowed(allow: &Vec<(String, usize)>, file: &str, line: usize) -> (r: bool)
    ensures
        r == allowed(allow_views(allow@), file@, line as int),
{
    let ghost av = allow_views(allow@);
    let mut i: usize = 0;
    while i < allow.len()
        invariant
            av == allow_views(allow@),
            i <= allow@.len(),
            forall|q: int| 0 <= q < i ==> av[q] != (file@, line as int),
        decreases allow@.len() - i,
    {
        if allow[i].1 == line && str_eq(allow[i].0.as_str(), file) {
            assert(av[i as int] == (file@, line as int));
            return true;
        }
        i = i + 1;
    }
    false
}

/// Which occurrences (by index) are violations: not excused by the allow-list.
pub fn collect_violations(occurrences: &Vec<Occurrence>, allow: &Vec<(String, usize)>) -> (r: Vec<usize>)
    ensures
        r@.map_values(|i: usize| i as int) == violations_spec(occurrences@, allow_views(allow@), occurrences@.len() as int),
{
    let mut out: Vec<usize> = Vec::new();
    let mut i: usize = 0;
    while i < occurrences.len()
        invariant
            i <= occurrences@.len(),
            out@.map_values(|j: usize| j as int) == violations_spec(occurrences@, allow_views(allow@), i as int),
        decreases occurrences@.len() - i,
    {
        if !is_allowed(allow, occurrences[i].file.as_str(), occurrences[i].line) {
            let ghost before = out@.map_values(|j: usize| j as int);
            out.push(i);
            assert(out@.map_values(|j: usize| j as int) =~= before.push(i as int));
        }
        i = i + 1;
    }
    out
}

/// Every reported violation is an occurrence that no allow-list entry names,
/// and every occurrence not reported is named by one.
pub proof fn violations_are_exactly_the_unexcused(occ: Seq<Occurrence>, allow: Seq<(Seq<char>, int)>, n: int)
    requires
        0 <= n <= occ.len(),
    ensures
        forall|i: int|
            0 <= i < n ==> (violations_spec(occ, allow, n).contains(i) <==> !allowed(
                allow,
                occ[i].file@,
                occ[i].line as int,
            )),
        forall|k: int| 0 <= k < violations_spec(occ, allow, n).len() ==> 0 <= #[trigger] violations_spec(occ, allow, n)[k] < n,
    decreases n,
{
    if n > 0 {
        violations_are_exactly_the_unexcused(occ, allow, n - 1);
        let prev = violations_spec(occ, allow, n - 1);
        let cur = violations_spec(occ, allow, n);
        assert forall|i: int| 0 <= i < n implies (cur.contains(i) <==> !allowed(allow, occ[i].file@, occ[i].line as int)) by {
            if i < n - 1 {
                if cur.contains(i) {
                    let k = choose|k: int| 0 <= k < cur.len() && cur[k] == i;
                    if k < prev.len() {
                        assert(prev[k] == i);
                    }
                }
                if prev.contains(i) {
                    let k = choose|k: int| 0 <= k < prev.len() && prev[k] == i;
                    assert(cur[k] == i);
                }
            } else {
                if !allowed(allow, occ[i].file@, occ[i].line as int) {
                    assert(cur.last() == i);
                } else if cur.contains(i) {
                    let k = choose|k: int| 0 <= k < cur.len() && cur[k] == i;
                    assert(prev[k] == i);
                }
            }
        }
    }
}

/// The text report of `text verify`.
pub open spec fn human_report(pattern: Seq<char>, occ: Seq<Occurrence>, viol: Seq<int>, allowed_count: int) -> Seq<char> {
    if viol.len() == 0 {
        "✓ verified: no remaining occurrences of \""@ + pattern + "\" in scope ("@ + dec(allowed_count as nat)
            + " allow-listed)\n"@
    } else {
        violation_lines(occ, viol, viol.len() as int) + "✗ FAILED: "@ + dec(viol.len()) + " occurrence(s) of \""@
            + pattern + "\" remain ("@ + dec(allowed_count as nat) + " allow-listed)\n"@
    }
}

pub open spec fn violation_lines(occ: Seq<Occurrence>, viol: Seq<int>, n: int) -> Seq<char>
    decreases n,
{
    if n <= 0 || n > viol.len() {
        seq![]
    } else {
        let o = occ[viol[n - 1]];
        violation_lines(occ, viol, n - 1) + "  "@ + o.file@ + ":"@ + dec(o.line as nat) + ": "@ + o.match_text@ + "\n"@
    }
}

/// The text `text verify` prints for the violations `viol` (indices into
/// `occurrences`) with `allowed_count` occurrences excused.
pub fn format_human(pattern: &str, occurrences: &Vec<Occurrence>, viol: &Vec<usize>, allowed_count: usize) -> (r: String)
    requires
        forall|k: int| 0 <= k < viol@.len() ==> #[trigger] viol@[k] < occurrences@.len(),
    ensures
        r@ == human_report(pattern@, occurrences@, viol@.map_values(|i: usize| i as int), allowed_count as int),
{
    let ghost vv = viol@.map_values(|i: usize| i as int);
    proof {
        reveal_strlit("✓ verified: no remaining occurrences of \"");
        reveal_strlit("\" in scope (");
        reveal_strlit(" allow-listed)\n");
        reveal_strlit("✗ FAILED: ");
        reveal_strlit(" occurrence(s) of \"");
        reveal_strlit("\" remain (");
        reveal_strlit("  ");
        reveal_strlit(":");
        reveal_strlit(": ");
        reveal_strlit("\n");
    }
    if viol.len() == 0 {
        let mut s = "✓ verified: no remaining occurrences of \"".to_owned();
        s.append(pattern);
        s.append("\" in scope (");
        push_decimal(&mut s, allowed_count);
        s.append(" allow-listed)\n");
        return s;
    }
    let mut s = String::new();
    let mut k: usize = 0;
    while k < viol.len()
        invariant
            vv == viol@.map_values(|i: usize| i as int),
            forall|q: int| 0 <= q < viol@.len() ==> #[trigger] viol@[q] < occurrences@.len(),
            k <= viol@.len(),
            s@ == violation_lines(occurrences@, vv, k as int),
        decreases viol@.len() - k,
    {
        let o = &occurrences[viol[k]];
        s.append("  ");
        s.append(o.file.as_str());
        s.append(":");
        push_decimal(&mut s, o.line);
        s.append(": ");
        s.append(o.match_text.as_str());
        s.append("\n");
        k = k + 1;
    }
    s.append("✗ FAILED: ");
    push_decimal(&mut s, viol.len());
    s.append(" occurrence(s) of \"");
    s.append(pattern);
    s.append("\" remain (");
    push_decimal(&mut s, allowed_count);
    s.append(" allow-listed)\n");
    s
}

fn clone_all(v: &Vec<String>) -> (r: Vec<String>)
    ensures
        string_views(r@) == string_views(v@),
{
    let mut out: Vec<String> = Vec::new();
    let mut i: usize = 0;
    while i < v.len()
        invariant
            i <= v@.len(),
            string_views(out@) == string_views(v@).take(i as int),
        decreases v@.len() - i,
    {
        let ghost before = string_views(out@);
        out.push(v[i].clone());
        assert(string_views(out@) =~= before.push(v@[i as int]@));
        assert(string_views(v@).take(i + 1) =~= string_views(v@).take(i as int).push(v@[i as int]@));
        i = i + 1;
    }
    assert(string_views(v@).take(i as int) =~= string_views(v@));
    out
}

/// The search a verification runs: the same pattern, filters and scope, with
/// no context lines.
pub fn find_args_of(args: &VerifyArgs) -> (r: FindArgs)
    ensures
        r.pattern@ == args.pattern@,
        r.regex == args.regex,
        string_views(r.includes@) == string_views(args.includes@),
        string_views(r.exclude@) == string_views(args.exclude@),
        string_views(r.file_types@) == string_views(args.file_types@),
        r.context == 0,
        r.format == args.format,
        r.include_code_blocks == args.include_code_blocks,
        r.include_frontmatter == args.include_frontmatter,
{
    FindArgs {
        pattern: args.pattern.clone(),
        regex: args.regex,
        includes: clone_all(&args.includes),
        exclude: clone_all(&args.exclude),
        file_types: clone_all(&args.file_types),
        context: 0,
        format: args.format,
        include_code_blocks: args.include_code_blocks,
        include_frontmatter: args.include_frontmatter,
    }
}

} // verus!
