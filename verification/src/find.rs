//! `text find`: occurrences of a literal (or regular expression) in a file's
//! lines, with their line, column, context, and whether they sit in the
//! frontmatter, in a fenced code block, or inside a longer identifier.

use vstd::prelude::*;
use vstd::string::*;
use vstd::utf8::encode_utf8;
use crate::commands::{FindArgs, Occurrence};
use crate::text::{first_of, is_ws, lead_ws, lemma_first_of, push_char, string_views, trim, trim_spec, trim_start};
use crate::transaction::matches_at;

verus! {

broadcast use vstd::seq::group_seq_axioms;

// ───────────────────────── lines ─────────────────────────

/// The lines of `s` split at `\n` (a `\r` stays), as `split_inclusive('\n')`
/// with the newline trimmed gives them.
pub open spec fn raw_lines(s: Seq<char>) -> Seq<Seq<char>>
    decreases s.len(),
{
    if s.len() == 0 {
        seq![]
    } else {
        let i = first_of(s, '\n');
        if 0 <= i < s.len() {
            seq![s.take(i)] + raw_lines(s.skip(i + 1))
        } else {
            seq![s]
        }
    }
}

/// The lines of `s`, newlines removed, carriage returns kept.
pub fn split_raw_lines(s: &str) -> (r: Vec<String>)
    ensures
        string_views(r@) == raw_lines(s@),
{
    let n = s.unicode_len();
    let mut out: Vec<String> = Vec::new();
    let mut cur = String::new();
    let mut start: usize = 0;
    let mut i: usize = 0;
    assert(s@.skip(0) =~= s@);
    assert(string_views(out@) + raw_lines(s@) =~= raw_lines(s@));
    while i < n
        invariant
            n == s@.len(),
            start <= i <= n,
            cur@ == s@.subrange(start as int, i as int),
            forall|j: int| start <= j < i ==> s@[j] != '\n',
            string_views(out@) + raw_lines(s@.skip(start as int)) == raw_lines(s@),
        decreases n - i,
    {
        let c = s.get_char(i);
        if c == '\n' {
            let ghost rest = s@.skip(start as int);
            proof {
                lemma_first_of(rest, '\n', i - start);
                assert(rest.take(i - start) =~= cur@);
                assert(rest.skip(i - start + 1) =~= s@.skip(i + 1));
            }
            let ghost before = string_views(out@);
            out.push(cur);
            assert(string_views(out@) =~= before.push(rest.take(i - start)));
            cur = String::new();
            start = i + 1;
        } else {
            push_char(&mut cur, c);
            assert(cur@ =~= s@.subrange(start as int, i + 1));
        }
        i = i + 1;
    }
    proof {
        let rest = s@.skip(start as int);
        lemma_first_of(rest, '\n', n - start);
        assert(cur@ =~= rest);
    }
    if start < n {
        let ghost before = string_views(out@);
        out.push(cur);
        assert(string_views(out@) =~= before.push(s@.skip(start as int)));
    } else {
        assert(s@.skip(start as int) =~= Seq::<char>::empty());
        assert(string_views(out@) + Seq::<Seq<char>>::empty() =~= string_views(out@));
    }
    out
}

// ───────────────────────── frontmatter and fences ─────────────────────────

pub open spec fn dashes3() -> Seq<char> {
    seq!['-', '-', '-']
}

/// The 1-based line closing the frontmatter: the first later line that trims
/// to `---`, when the first line trims to `---`.
pub open spec fn fm_end_spec(lines: Seq<Seq<char>>) -> Option<int> {
    if lines.len() == 0 || trim_spec(lines[0]) != dashes3() {
        None
    } else {
        fm_close_from(lines, 1)
    }
}

pub open spec fn fm_close_from(lines: Seq<Seq<char>>, i: int) -> Option<int>
    decreases lines.len() - i,
{
    if i < 1 || i >= lines.len() {
        None
    } else if trim_spec(lines[i]) == dashes3() {
        Some(i + 1)
    } else {
        fm_close_from(lines, i + 1)
    }
}

/// The line that closes the frontmatter block, if the lines open with one.
pub fn detect_frontmatter_end(lines: &Vec<String>) -> (r: Option<usize>)
    ensures
        match r {
            Some(e) => fm_end_spec(string_views(lines@)) == Some(e as int),
            None => fm_end_spec(string_views(lines@)) is None,
        },
{
    let d = "---";
    proof {
        reveal_strlit("---");
    }
    assert(d@ =~= dashes3());
    let ghost lv = string_views(lines@);
    if lines.len() == 0 {
        return None;
    }
    if !crate::text::str_eq(trim(lines[0].as_str()), d) {
        return None;
    }
    assert(lv[0] == lines@[0]@);
    let mut i: usize = 1;
    while i < lines.len()
        invariant
            lv == string_views(lines@),
            d@ == dashes3(),
            1 <= i <= lines@.len(),
            trim_spec(lv[0]) == dashes3(),
            fm_close_from(lv, i as int) == fm_close_from(lv, 1),
        decreases lines@.len() - i,
    {
        if crate::text::str_eq(trim(lines[i].as_str()), d) {
            return Some(i + 1);
        }
        i = i + 1;
    }
    None
}

/// Fence state while scanning lines: open or not, the opening character and length.
pub type CodeState = (bool, Option<char>, nat);

/// The leading run of `` ` `` and `~` characters of `s` (mixed), as a length.
pub open spec fn fence_run(s: Seq<char>) -> nat
    decreases s.len(),
{
    if s.len() > 0 && (s[0] == '`' || s[0] == '~') {
        1 + fence_run(s.drop_first())
    } else {
        0
    }
}

proof fn lemma_fence_run(s: Seq<char>)
    ensures
        fence_run(s) <= s.len(),
        forall|j: int| 0 <= j < fence_run(s) ==> (#[trigger] s[j] == '`' || s[j] == '~'),
        fence_run(s) < s.len() ==> !(s[fence_run(s) as int] == '`' || s[fence_run(s) as int] == '~'),
    decreases s.len(),
{
    if s.len() > 0 && (s[0] == '`' || s[0] == '~') {
        lemma_fence_run(s.drop_first());
        assert forall|j: int| 0 <= j < fence_run(s) implies (#[trigger] s[j] == '`' || s[j] == '~') by {
            if j > 0 {
                assert(s[j] == s.drop_first()[j - 1]);
            }
        }
    }
}

/// One line of the fence scan: the new state, and whether the line belongs to a code block.
pub open spec fn code_step(st: CodeState, line: Seq<char>) -> (CodeState, bool) {
    let t = line.skip(lead_ws(line) as int);
    let n = fence_run(t);
    let c: Option<char> = if n > 0 {
        Some(t[0])
    } else {
        None
    };
    if !st.0 {
        if n >= 3 {
            ((true, c, n), true)
        } else {
            (st, false)
        }
    } else if n >= st.2 && c == st.1 && trim_spec(t.skip(n as int)).len() == 0 {
        ((false, None, 0), true)
    } else {
        (st, true)
    }
}

/// The code-block flag of every line, scanning from state `st`.
pub open spec fn code_flags_from(st: CodeState, lines: Seq<Seq<char>>) -> Seq<bool>
    decreases lines.len(),
{
    if lines.len() == 0 {
        seq![]
    } else {
        let (next, flag) = code_step(st, lines[0]);
        seq![flag] + code_flags_from(next, lines.drop_first())
    }
}

/// Which lines (by index) belong to fenced code blocks, delimiters included.
pub fn detect_code_block_lines(lines: &Vec<String>) -> (r: Vec<bool>)
    ensures
        r@ == code_flags_from((false, None, 0), string_views(lines@)),
{
    let ghost lv = string_views(lines@);
    let mut out: Vec<bool> = Vec::new();
    let mut in_fence = false;
    let mut marker: Option<char> = None;
    let mut marker_len: usize = 0;
    let mut i: usize = 0;
    assert(lv.skip(0) =~= lv);
    while i < lines.len()
        invariant
            lv == string_views(lines@),
            0 <= i <= lines@.len(),
            out@ + code_flags_from((in_fence, marker, marker_len as nat), lv.skip(i as int))
                == code_flags_from((false, None, 0), lv),
        decreases lines@.len() - i,
    {
        let line = lines[i].as_str();
        let t = trim_start(line);
        let tl = t.unicode_len();
        let mut n: usize = 0;
        while n < tl && (t.get_char(n) == '`' || t.get_char(n) == '~')
            invariant
                tl == t@.len(),
                n <= tl,
                forall|j: int| 0 <= j < n ==> (#[trigger] t@[j] == '`' || t@[j] == '~'),
            decreases tl - n,
        {
            n = n + 1;
        }
        proof {
            lemma_fence_run(t@);
            if (n as nat) < fence_run(t@) {
                assert(t@[n as int] == '`' || t@[n as int] == '~');
            }
            if (n as nat) > fence_run(t@) {
                assert(t@[fence_run(t@) as int] == '`' || t@[fence_run(t@) as int] == '~');
            }
            assert(n as nat == fence_run(t@));
        }
        let c: Option<char> = if n > 0 {
            Some(t.get_char(0))
        } else {
            None
        };
        let ghost tail = lv.skip(i as int);
        assert(tail[0] == line@);
        assert(tail.drop_first() =~= lv.skip(i + 1));
        let flag: bool;
        if !in_fence {
            if n >= 3 {
                in_fence = true;
                marker = c;
                marker_len = n;
                flag = true;
            } else {
                flag = false;
            }
        } else {
            flag = true;
            if n >= marker_len && c == marker {
                let after = t.substring_char(n, tl);
                assert(after@ =~= t@.skip(n as int));
                if trim(after).unicode_len() == 0 {
                    in_fence = false;
                    marker = None;
                    marker_len = 0;
                }
            }
        }
        let ghost before = out@;
        out.push(flag);
        assert(out@ =~= before.push(flag));
        assert(before.push(flag) + code_flags_from((in_fence, marker, marker_len as nat), lv.skip(i + 1))
            =~= before + (seq![flag] + code_flags_from((in_fence, marker, marker_len as nat), lv.skip(i + 1))));
        i = i + 1;
    }
    assert(lv.skip(i as int) =~= Seq::<Seq<char>>::empty());
    assert(out@ + Seq::<bool>::empty() =~= out@);
    out
}

// ───────────────────────── context ─────────────────────────

/// Up to `n` lines before line index `idx` (or after it).
pub open spec fn context_spec(lines: Seq<Seq<char>>, idx: int, n: int, before: bool) -> Seq<Seq<char>> {
    if n == 0 {
        seq![]
    } else if before {
        lines.subrange(if idx >= n { idx - n } else { 0 }, idx)
    } else {
        lines.subrange(idx + 1, if idx + 1 + n <= lines.len() { idx + 1 + n } else { lines.len() as int })
    }
}

/// The context lines around line index `idx`: up to `n` before it, or up to `n` after it.
pub fn collect_context(lines: &Vec<String>, idx: usize, n: usize, before: bool) -> (r: Vec<String>)
    requires
        idx < lines@.len(),
    ensures
        string_views(r@) == context_spec(string_views(lines@), idx as int, n as int, before),
{
    let ghost lv = string_views(lines@);
    let mut out: Vec<String> = Vec::new();
    if n == 0 {
        return out;
    }
    let (lo, hi) = if before {
        (if idx >= n { idx - n } else { 0 }, idx)
    } else {
        let rest = lines.len() - (idx + 1);
        (idx + 1, if n <= rest { idx + 1 + n } else { lines.len() })
    };
    let mut k: usize = lo;
    while k < hi
        invariant
            lv == string_views(lines@),
            lo <= k <= hi <= lines@.len(),
            string_views(out@) =~= lv.subrange(lo as int, k as int),
        decreases hi - k,
    {
        let ghost before_v = string_views(out@);
        out.push(lines[k].clone());
        assert(string_views(out@) =~= before_v.push(lv[k as int]));
        k = k + 1;
    }
    out
}

// ───────────────────────── literal matches ─────────────────────────

/// Non-overlapping occurrences of `p` in `s` from `pos`, left to right, as char spans.
pub open spec fn spans_from(s: Seq<char>, p: Seq<char>, pos: int) -> Seq<(int, int)>
    decreases s.len() - pos,
{
    if pos < 0 || p.len() == 0 || pos + p.len() > s.len() {
        seq![]
    } else if s.subrange(pos, pos + p.len()) == p {
        seq![(pos, pos + p.len())] + spans_from(s, p, pos + p.len())
    } else {
        spans_from(s, p, pos + 1)
    }
}

/// The literal occurrences of `p` in `s` as character spans.
pub fn literal_spans(s: &str, p: &str) -> (r: Vec<(usize, usize)>)
    ensures
        r@.map_values(|x: (usize, usize)| (x.0 as int, x.1 as int)) == spans_from(s@, p@, 0),
{
    let sl = s.unicode_len();
    let pl = p.unicode_len();
    let mut out: Vec<(usize, usize)> = Vec::new();
    if pl == 0 || pl > sl {
        return out;
    }
    let mut pos: usize = 0;
    while pos <= sl - pl
        invariant
            sl == s@.len(),
            pl == p@.len(),
            1 <= pl <= sl,
            pos <= sl,
            out@.map_values(|x: (usize, usize)| (x.0 as int, x.1 as int)) + spans_from(s@, p@, pos as int)
                == spans_from(s@, p@, 0),
        decreases sl - pos,
    {
        if matches_at(s, p, pos) {
            let ghost before = out@.map_values(|x: (usize, usize)| (x.0 as int, x.1 as int));
            out.push((pos, pos + pl));
            assert(out@.map_values(|x: (usize, usize)| (x.0 as int, x.1 as int)) =~= before.push(
                (pos as int, pos + pl),
            ));
            pos = pos + pl;
        } else {
            pos = pos + 1;
        }
    }
    assert(spans_from(s@, p@, pos as int) =~= Seq::<(int, int)>::empty());
    out
}

/// What `char::is_alphanumeric` says of `c` (Unicode `Alphabetic` or `Numeric`).
pub uninterp spec fn char_alnum(c: char) -> bool;

/// Calls `char::is_alphanumeric`; the result is named `char_alnum`.
#[verifier::external_body]
fn is_alphanumeric(c: char) -> (r: bool)
    ensures
        r == char_alnum(c),
{
    c.is_alphanumeric()
}

/// A character that continues an identifier: alphanumeric, `_` or `-`.
pub open spec fn ident_char(c: char) -> bool {
    char_alnum(c) || c == '_' || c == '-'
}

/// A match at chars `[s, e)` of `line` touches an identifier character on either side.
pub open spec fn compound_spec(line: Seq<char>, s: int, e: int) -> bool {
    (s > 0 && ident_char(line[s - 1])) || (e < line.len() && ident_char(line[e]))
}

fn is_ident(c: char) -> (r: bool)
    ensures
        r == ident_char(c),
{
    is_alphanumeric(c) || c == '_' || c == '-'
}

/// Whether the match at chars `[start, end)` of `line` is part of a longer identifier.
pub fn is_compound(line: &str, start: usize, end: usize) -> (r: bool)
    requires
        start <= end <= line@.len(),
    ensures
        r == compound_spec(line@, start as int, end as int),
{
    let n = line.unicode_len();
    (start > 0 && is_ident(line.get_char(start - 1))) || (end < n && is_ident(line.get_char(end)))
}

} // verus!

verus! {

// ───────────────────────── occurrences ─────────────────────────

/// What `regex::Regex::find_iter` yields for `pattern` on `line`, as byte
/// spans; `None` when the pattern does not compile.
pub uninterp spec fn regex_spans(pattern: Seq<char>, line: Seq<char>) -> Option<Seq<(usize, usize)>>;

/// What `regex::Regex::new` reports for a pattern that does not compile.
pub uninterp spec fn regex_error(pattern: Seq<char>) -> Seq<char>;

/// Whether `regex::Regex::new` rejects the pattern.
pub uninterp spec fn regex_rejects(pattern: Seq<char>) -> bool;

/// Compiles `pattern` with `regex::Regex::new` and collects `find_iter`'s
/// match spans on `line`; the result is named `regex_spans`. The regex crate
/// documents the spans of a `&str` haystack as lying on UTF-8 boundaries.
#[verifier::external_body]
pub(crate) fn regex_find_all(pattern: &str, line: &str) -> (r: Option<Vec<(usize, usize)>>)
    ensures
        match r {
            Some(v) => regex_spans(pattern@, line@) == Some(v@) && forall|k: int|
                0 <= k < v@.len() ==> #[trigger] v@[k].0 <= v@[k].1 <= encode_utf8(line@).len()
                    && vstd::utf8::is_char_boundary(encode_utf8(line@), v@[k].0 as int)
                    && vstd::utf8::is_char_boundary(encode_utf8(line@), v@[k].1 as int),
            None => regex_spans(pattern@, line@) is None,
        },
{
    regex::Regex::new(pattern).ok().map(|re| re.find_iter(line).map(|m| (m.start(), m.end())).collect())
}

/// Compiles `pattern` with `regex::Regex::new`; whether it fails is named
/// `regex_rejects`, and the error's text `regex_error`.
#[verifier::external_body]
pub(crate) fn regex_check(pattern: &str) -> (r: Result<(), String>)
    ensures
        (r is Err) == regex_rejects(pattern@),
        match r {
            Ok(()) => true,
            Err(e) => e@ == regex_error(pattern@),
        },
{
    regex::Regex::new(pattern).map(|_| ()).map_err(|e| e.to_string())
}

/// Check the search pattern: it must not be empty, and a regular expression must compile.
pub fn check_pattern(args: &FindArgs) -> (r: Result<(), String>)
    ensures
        args.pattern@.len() == 0 ==> (r matches Err(e) && e@ == "pattern must not be empty"@),
        args.pattern@.len() > 0 && !args.regex ==> r is Ok,
        args.pattern@.len() > 0 && args.regex ==> match r {
            Ok(()) => !regex_rejects(args.pattern@),
            Err(e) => regex_rejects(args.pattern@) && e@ == "invalid regex pattern: "@ + regex_error(args.pattern@),
        },
{
    if args.pattern.as_str().unicode_len() == 0 {
        return Err("pattern must not be empty".to_owned());
    }
    if args.regex {
        match regex_check(args.pattern.as_str()) {
            Ok(()) => Ok(()),
            Err(e) => {
                let mut m = "invalid regex pattern: ".to_owned();
                m.append(e.as_str());
                Err(m)
            },
        }
    } else {
        Ok(())
    }
}

/// An occurrence as plain values.
pub type OccView = (Seq<char>, int, int, Seq<char>, Seq<Seq<char>>, Seq<Seq<char>>, bool, bool, bool);

pub open spec fn occ_view(o: Occurrence) -> OccView {
    (
        o.file@,
        o.line as int,
        o.column as int,
        o.match_text@,
        string_views(o.context_before@),
        string_views(o.context_after@),
        o.in_code_block,
        o.in_frontmatter,
        o.compound_match,
    )
}

pub open spec fn occ_views(v: Seq<Occurrence>) -> Seq<OccView> {
    v.map_values(|o: Occurrence| occ_view(o))
}

/// Line index `i` lies in the frontmatter closed at 1-based line `fm`.
pub open spec fn in_fm(fm: Option<int>, i: int) -> bool {
    match fm {
        Some(e) => i + 1 <= e,
        None => false,
    }
}

/// The occurrence for match `sp` on line `i`: byte column (1-based), the
/// matched text, context, and flags. Literal matches are character spans;
/// regular-expression matches are byte spans.
pub open spec fn occ_for(
    file: Seq<char>,
    lines: Seq<Seq<char>>,
    i: int,
    ctx: int,
    sp: (int, int),
    regex: bool,
    code: bool,
    fm: bool,
) -> OccView {
    let line = lines[i];
    let b = encode_utf8(line);
    (
        file,
        i + 1,
        if regex {
            sp.0 + 1
        } else {
            encode_utf8(line.take(sp.0)).len() as int + 1
        },
        if regex {
            crate::text::chars_of(b.subrange(sp.0, sp.1))
        } else {
            line.subrange(sp.0, sp.1)
        },
        context_spec(lines, i, ctx, true),
        context_spec(lines, i, ctx, false),
        code,
        fm,
        if regex {
            false
        } else {
            compound_spec(line, sp.0, sp.1)
        },
    )
}

/// The match spans of line `line` for the search.
pub open spec fn line_spans(line: Seq<char>, pattern: Seq<char>, regex: bool) -> Seq<(int, int)> {
    if regex {
        match regex_spans(pattern, line) {
            Some(v) => v.map_values(|x: (usize, usize)| (x.0 as int, x.1 as int)),
            None => seq![],
        }
    } else {
        spans_from(line, pattern, 0)
    }
}

/// The search as plain values: pattern, regex, context, include code blocks, include frontmatter.
pub type SearchView = (Seq<char>, bool, int, bool, bool);

pub open spec fn search_view(a: FindArgs) -> SearchView {
    (a.pattern@, a.regex, a.context as int, a.include_code_blocks, a.include_frontmatter)
}

/// The occurrences on line `i`, unless the line lies in a part the search leaves out.
pub open spec fn line_occs(file: Seq<char>, lines: Seq<Seq<char>>, i: int, a: SearchView) -> Seq<OccView> {
    let code = code_flags_from((false, None, 0), lines)[i];
    let fm = in_fm(fm_end_spec(lines), i);
    if (fm && !a.4) || (code && !a.3) {
        seq![]
    } else {
        line_spans(lines[i], a.0, a.1).map_values(|sp: (int, int)| occ_for(file, lines, i, a.2, sp, a.1, code, fm))
    }
}

/// The occurrences of the first `k` lines, in order.
pub open spec fn occs_upto(file: Seq<char>, lines: Seq<Seq<char>>, k: int, a: SearchView) -> Seq<OccView>
    decreases k,
{
    if k <= 0 {
        seq![]
    } else {
        occs_upto(file, lines, k - 1, a) + line_occs(file, lines, k - 1, a)
    }
}

proof fn lemma_code_flags_len(st: CodeState, lines: Seq<Seq<char>>)
    ensures
        code_flags_from(st, lines).len() == lines.len(),
    decreases lines.len(),
{
    if lines.len() > 0 {
        let (next, flag) = code_step(st, lines[0]);
        lemma_code_flags_len(next, lines.drop_first());
    }
}

/// Append the occurrences of the search in one file's content to `out`.
pub fn find_in_file(file: &str, content: &str, args: &FindArgs, out: &mut Vec<Occurrence>)
    requires
        content.spec_bytes().len() < usize::MAX,
    ensures
        occ_views(final(out)@) == occ_views(old(out)@) + occs_upto(
            file@,
            raw_lines(content@),
            raw_lines(content@).len() as int,
            search_view(*args),
        ),
{
    let lines = split_raw_lines(content);
    let ghost lv = string_views(lines@);
    let ghost a = search_view(*args);
    let fm_end = detect_frontmatter_end(&lines);
    let code = detect_code_block_lines(&lines);
    proof {
        lemma_code_flags_len((false, None, 0), lv);
        lemma_raw_lines_within(content@);
    }
    let ghost start = occ_views(out@);
    let mut i: usize = 0;
    while i < lines.len()
        invariant
            lv == string_views(lines@),
            lv == raw_lines(content@),
            a == search_view(*args),
            code@ == code_flags_from((false, None, 0), lv),
            code@.len() == lv.len(),
            match fm_end {
                Some(e) => fm_end_spec(lv) == Some(e as int),
                None => fm_end_spec(lv) is None,
            },
            0 <= i <= lines@.len(),
            occ_views(out@) == start + occs_upto(file@, lv, i as int, a),
            forall|j: int| 0 <= j < lv.len() ==> encode_utf8(#[trigger] lv[j]).len() < usize::MAX,
        decreases lines@.len() - i,
    {
        let line = lines[i].as_str();
        assert(line@ == lv[i as int]);
        assert(encode_utf8(line@).len() < usize::MAX);
        let in_frontmatter = match fm_end {
            Some(e) => i < e,
            None => false,
        };
        let in_code = code[i];
        assert(in_frontmatter == in_fm(fm_end_spec(lv), i as int));
        let ghost before = occ_views(out@);
        if !((in_frontmatter && !args.include_frontmatter) || (in_code && !args.include_code_blocks)) {
            let spans: Vec<(usize, usize)> = if args.regex {
                match regex_find_all(args.pattern.as_str(), line) {
                    Some(v) => v,
                    None => Vec::new(),
                }
            } else {
                literal_spans(line, args.pattern.as_str())
            };
            let ghost sv = spans@.map_values(|x: (usize, usize)| (x.0 as int, x.1 as int));
            assert(sv =~= line_spans(lv[i as int], a.0, a.1));
            let mut k: usize = 0;
            while k < spans.len()
                invariant
                    lv == string_views(lines@),
                    line@ == lv[i as int],
                    i < lines@.len(),
                    i + 1 <= usize::MAX,
                    encode_utf8(line@).len() < usize::MAX,
                    a == search_view(*args),
                    sv == spans@.map_values(|x: (usize, usize)| (x.0 as int, x.1 as int)),
                    sv == line_spans(lv[i as int], a.0, a.1),
                    args.regex ==> forall|q: int|
                        0 <= q < spans@.len() ==> #[trigger] spans@[q].0 <= spans@[q].1 <= encode_utf8(line@).len()
                            && vstd::utf8::is_char_boundary(encode_utf8(line@), spans@[q].0 as int)
                            && vstd::utf8::is_char_boundary(encode_utf8(line@), spans@[q].1 as int),
                    !args.regex ==> sv == spans_from(line@, args.pattern@, 0),
                    0 <= k <= spans@.len(),
                    occ_views(out@) == before + sv.take(k as int).map_values(
                        |sp: (int, int)| occ_for(file@, lv, i as int, a.2, sp, a.1, in_code, in_frontmatter),
                    ),
                decreases spans@.len() - k,
            {
                let (s0, s1) = spans[k];
                let (column, match_text, compound_match) = if args.regex {
                    let t = crate::text::substr_at_boundaries(line, s0, s1);
                    (s0 + 1, t.to_owned(), false)
                } else {
                    proof {
                        lemma_spans_bounds(line@, args.pattern@, 0);
                        assert(sv[k as int] == spans_from(line@, args.pattern@, 0)[k as int]);
                    }
                    let prefix = line.substring_char(0, s0);
                    assert(prefix@ =~= line@.take(s0 as int));
                    proof {
                        assert(line@ =~= line@.take(s0 as int) + line@.skip(s0 as int));
                        crate::text::lemma_encode_concat(line@.take(s0 as int), line@.skip(s0 as int));
                    }
                    let t = line.substring_char(s0, s1);
                    (prefix.len() + 1, t.to_owned(), is_compound(line, s0, s1))
                };
                let context_before = collect_context(&lines, i, args.context, true);
                let context_after = collect_context(&lines, i, args.context, false);
                let o = Occurrence {
                    file: file.to_owned(),
                    line: i + 1,
                    column,
                    match_text,
                    context_before,
                    context_after,
                    in_code_block: in_code,
                    in_frontmatter,
                    compound_match,
                };
                let ghost prev = occ_views(out@);
                out.push(o);
                proof {
                    assert(occ_views(out@) =~= prev.push(occ_view(o)));
                    assert(sv.take(k + 1) =~= sv.take(k as int).push(sv[k as int]));
                    assert(occ_view(o) == occ_for(file@, lv, i as int, a.2, sv[k as int], a.1, in_code, in_frontmatter));
                    assert(sv.take(k + 1).map_values(
                        |sp: (int, int)| occ_for(file@, lv, i as int, a.2, sp, a.1, in_code, in_frontmatter),
                    ) =~= sv.take(k as int).map_values(
                        |sp: (int, int)| occ_for(file@, lv, i as int, a.2, sp, a.1, in_code, in_frontmatter),
                    ).push(occ_view(o)));
                }
                k = k + 1;
            }
            assert(sv.take(k as int) =~= sv);
        } else {
            assert(line_occs(file@, lv, i as int, a) =~= Seq::<OccView>::empty());
        }
        assert(occs_upto(file@, lv, i + 1, a) == occs_upto(file@, lv, i as int, a) + line_occs(file@, lv, i as int, a));
        i = i + 1;
    }
}

pub proof fn lemma_spans_bounds(s: Seq<char>, p: Seq<char>, pos: int)
    requires
        0 <= pos,
    ensures
        forall|k: int|
            0 <= k < spans_from(s, p, pos).len() ==> pos <= #[trigger] spans_from(s, p, pos)[k].0
                <= spans_from(s, p, pos)[k].1 <= s.len(),
    decreases s.len() - pos,
{
    let cur = spans_from(s, p, pos);
    if !(pos < 0 || p.len() == 0 || pos + p.len() > s.len()) {
        if s.subrange(pos, pos + p.len()) == p {
            lemma_spans_bounds(s, p, pos + p.len());
            let rest = spans_from(s, p, pos + p.len());
            assert(cur == seq![(pos, pos + p.len())] + rest);
            assert forall|k: int| 0 <= k < cur.len() implies pos <= #[trigger] cur[k].0 <= cur[k].1 <= s.len() by {
                if k > 0 {
                    assert(cur[k] == rest[k - 1]);
                    assert(pos + p.len() <= rest[k - 1].0);
                }
            }
        } else {
            lemma_spans_bounds(s, p, pos + 1);
            let rest = spans_from(s, p, pos + 1);
            assert(cur == rest);
            assert forall|k: int| 0 <= k < cur.len() implies pos <= #[trigger] cur[k].0 <= cur[k].1 <= s.len() by {
                assert(pos + 1 <= rest[k].0);
            }
        }
    }
}

/// Each occurrence takes at least one character, so there are no more of
/// them than characters from `pos` on.
pub proof fn lemma_spans_len(s: Seq<char>, p: Seq<char>, pos: int)
    requires
        0 <= pos <= s.len(),
        p.len() > 0,
    ensures
        spans_from(s, p, pos).len() <= s.len() - pos,
    decreases s.len() - pos,
{
    if pos + p.len() <= s.len() {
        if s.subrange(pos, pos + p.len()) == p {
            lemma_spans_len(s, p, pos + p.len());
        } else {
            lemma_spans_len(s, p, pos + 1);
        }
    }
}

proof fn lemma_first_of_bounds(s: Seq<char>, c: char)
    ensures
        0 <= first_of(s, c) <= s.len(),
    decreases s.len(),
{
    if s.len() > 0 && s[0] != c {
        lemma_first_of_bounds(s.drop_first(), c);
    }
}

/// Every line of `s` encodes to no more bytes than `s` itself.
proof fn lemma_raw_lines_within(s: Seq<char>)
    ensures
        forall|j: int| 0 <= j < raw_lines(s).len() ==> encode_utf8(#[trigger] raw_lines(s)[j]).len() <= encode_utf8(s).len(),
    decreases s.len(),
{
    if s.len() > 0 {
        let i = first_of(s, '\n');
        lemma_first_of_bounds(s, '\n');
        if 0 <= i < s.len() {
            let rest = s.skip(i + 1);
            lemma_raw_lines_within(rest);
            assert(s =~= s.take(i) + s.skip(i));
            crate::text::lemma_encode_concat(s.take(i), s.skip(i));
            assert(s.skip(i) =~= seq![s[i]] + rest);
            crate::text::lemma_encode_concat(seq![s[i]], rest);
            let ls = raw_lines(s);
            assert(ls == seq![s.take(i)] + raw_lines(rest));
            assert forall|j: int| 0 <= j < ls.len() implies encode_utf8(#[trigger] ls[j]).len() <= encode_utf8(s).len() by {
                if j > 0 {
                    assert(ls[j] == raw_lines(rest)[j - 1]);
                }
            }
        } else {
            assert(raw_lines(s) == seq![s]);
        }
    }
}

/// How the text report shows one occurrence: its markers, then the match.
pub open spec fn display_spec(o: Occurrence) -> Seq<char> {
    (if o.in_frontmatter {
        "[frontmatter] "@
    } else {
        seq![]
    }) + (if o.in_code_block {
        "[code-block] "@
    } else {
        seq![]
    }) + o.match_text@ + (if o.compound_match {
        "  (compound match)"@
    } else {
        seq![]
    })
}

/// The text report's rendering of an occurrence.
pub fn line_for_display(occ: &Occurrence) -> (r: String)
    ensures
        r@ == display_spec(*occ),
{
    proof {
        reveal_strlit("[frontmatter] ");
        reveal_strlit("[code-block] ");
        reveal_strlit("  (compound match)");
    }
    let mut s = String::new();
    if occ.in_frontmatter {
        s.append("[frontmatter] ");
    }
    if occ.in_code_block {
        s.append("[code-block] ");
    }
    s.append(occ.match_text.as_str());
    if occ.compound_match {
        s.append("  (compound match)");
    }
    s
}

// ───────────────────────── across the workspace ─────────────────────────

/// The first glob of `patterns`, from `i` on, that an override builder
/// refuses, with the error a search reports for it.
pub open spec fn find_glob_add_error(root: Seq<char>, patterns: Seq<Seq<char>>, i: int) -> Option<Seq<char>>
    decreases patterns.len() - i,
{
    if i < 0 || i >= patterns.len() {
        None
    } else {
        match crate::plan_validate::override_add_err(root, patterns[i]) {
            Some(e) => Some("invalid glob pattern '"@ + patterns[i] + "': "@ + e),
            None => find_glob_add_error(root, patterns, i + 1),
        }
    }
}

/// The error a search reports for its include or exclude globs, if any.
pub open spec fn find_globs_error(root: Seq<char>, patterns: Seq<Seq<char>>) -> Option<Seq<char>> {
    if patterns.len() == 0 {
        None
    } else {
        match find_glob_add_error(root, patterns, 0) {
            Some(e) => Some(e),
            None => match crate::plan_validate::override_build_err(root, patterns) {
                Some(e) => Some("failed to build override matcher: "@ + e),
                None => None,
            },
        }
    }
}

/// Check a search's globs the way the override builder sees them.
pub fn check_find_globs(root: &str, patterns: &Vec<String>) -> (r: Result<(), String>)
    ensures
        match r {
            Ok(()) => find_globs_error(root@, string_views(patterns@)) is None,
            Err(e) => find_globs_error(root@, string_views(patterns@)) == Some(e@),
        },
{
    if patterns.len() == 0 {
        return Ok(());
    }
    proof {
        reveal_strlit("invalid glob pattern '");
        reveal_strlit("': ");
        reveal_strlit("failed to build override matcher: ");
    }
    let ghost pv = string_views(patterns@);
    let mut i: usize = 0;
    while i < patterns.len()
        invariant
            pv == string_views(patterns@),
            i <= pv.len(),
            find_glob_add_error(root@, pv, i as int) == find_glob_add_error(root@, pv, 0),
        decreases pv.len() - i,
    {
        match crate::plan_validate::glob_add_error(root, patterns[i].as_str()) {
            Some(e) => {
                let mut m = "invalid glob pattern '".to_owned();
                m.append(patterns[i].as_str());
                m.append("': ");
                m.append(e.as_str());
                return Err(m);
            },
            None => {},
        }
        i = i + 1;
    }
    match crate::plan_validate::glob_build_error(root, patterns) {
        Some(e) => {
            let mut m = "failed to build override matcher: ".to_owned();
            m.append(e.as_str());
            Err(m)
        },
        None => Ok(()),
    }
}

/// The error a search reports before it reads any file, if any: an empty
/// pattern, a pattern that does not compile, or a glob the builder refuses.
pub open spec fn find_error(root: Seq<char>, a: FindArgs) -> Option<Seq<char>> {
    if a.pattern@.len() == 0 {
        Some("pattern must not be empty"@)
    } else if a.regex && regex_rejects(a.pattern@) {
        Some("invalid regex pattern: "@ + regex_error(a.pattern@))
    } else {
        match find_globs_error(root, string_views(a.includes@)) {
            Some(e) => Some(e),
            None => find_globs_error(root, string_views(a.exclude@)),
        }
    }
}

/// The occurrences of a search over workspace files, given as (relative
/// path, text), in order; files the search does not select add nothing.
pub open spec fn find_all_spec(files: Seq<(Seq<char>, Seq<char>)>, a: FindArgs) -> Seq<OccView>
    decreases files.len(),
{
    if files.len() == 0 {
        seq![]
    } else {
        let (f, c) = files.last();
        find_all_spec(files.drop_last(), a) + if crate::selection::find_selects_args(f, a) {
            occs_upto(f, raw_lines(c), raw_lines(c).len() as int, search_view(a))
        } else {
            seq![]
        }
    }
}

/// Search the workspace files (relative path, text) under `root`.
pub fn do_find(root: &str, files: &Vec<(String, String)>, args: &FindArgs) -> (r: Result<Vec<Occurrence>, String>)
    requires
        forall|i: int| 0 <= i < files@.len() ==> encode_utf8(#[trigger] files@[i].1@).len() < usize::MAX,
    ensures
        match r {
            Ok(v) => find_error(root@, *args) is None && occ_views(v@) == find_all_spec(
                crate::fm_schema::pairs_view(files@),
                *args,
            ),
            Err(e) => find_error(root@, *args) == Some(e@),
        },
{
    match check_pattern(args) {
        Ok(()) => {},
        Err(e) => {
            return Err(e);
        },
    }
    match check_find_globs(root, &args.includes) {
        Ok(()) => {},
        Err(e) => {
            return Err(e);
        },
    }
    match check_find_globs(root, &args.exclude) {
        Ok(()) => {},
        Err(e) => {
            return Err(e);
        },
    }
    let ghost fv = crate::fm_schema::pairs_view(files@);
    let mut out: Vec<Occurrence> = Vec::new();
    let mut i: usize = 0;
    assert(fv.take(0) =~= Seq::<(Seq<char>, Seq<char>)>::empty());
    while i < files.len()
        invariant
            fv == crate::fm_schema::pairs_view(files@),
            i <= files@.len(),
            forall|j: int| 0 <= j < files@.len() ==> encode_utf8(#[trigger] files@[j].1@).len() < usize::MAX,
            occ_views(out@) == find_all_spec(fv.take(i as int), *args),
        decreases files@.len() - i,
    {
        let ghost cur = fv.take(i + 1);
        assert(cur.drop_last() =~= fv.take(i as int));
        assert(cur.last() == fv[i as int]);
        let file = files[i].0.as_str();
        let content = files[i].1.as_str();
        let ghost before = occ_views(out@);
        if crate::selection::find_selects(file, args) {
            assert(encode_utf8(files@[i as int].1@).len() < usize::MAX);
            assert(content.spec_bytes() == encode_utf8(content@));
            find_in_file(file, content, args, &mut out);
        } else {
            assert(before + Seq::<OccView>::empty() =~= before);
        }
        i = i + 1;
    }
    assert(fv.take(i as int) =~= fv);
    Ok(out)
}

} // verus!
