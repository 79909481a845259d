//! `text_rename`: literal or regular-expression substitution over a text
//! file, line by line, leaving the frontmatter and fenced code blocks alone
//! unless the operation asks otherwise.

use vstd::prelude::*;
use vstd::string::*;
use vstd::utf8::encode_utf8;
use crate::fence_state::{fence_closed, fence_step, FenceState};
use crate::find::{regex_find_all, regex_spans, spans_from};
use crate::plan::TextRenameOp;
use crate::text::{first_of, lemma_first_of, push_char};
use crate::transaction::matches_at;

verus! {

broadcast use vstd::seq::group_seq_axioms;

// ───────────────────────── lines ─────────────────────────

/// The lines of `s` with their `\n` kept, as `str::split_inclusive('\n')`
/// yields them (a last line without `\n` is kept as it is).
pub open spec fn incl_lines(s: Seq<char>) -> Seq<Seq<char>>
    decreases s.len(),
{
    if s.len() == 0 {
        seq![]
    } else {
        let i = first_of(s, '\n');
        if 0 <= i < s.len() {
            seq![s.take(i + 1)] + incl_lines(s.skip(i + 1))
        } else {
            seq![s]
        }
    }
}

/// The pieces of `ls` put back together.
pub open spec fn join_all(ls: Seq<Seq<char>>) -> Seq<char>
    decreases ls.len(),
{
    if ls.len() == 0 {
        seq![]
    } else {
        ls[0] + join_all(ls.drop_first())
    }
}

proof fn lemma_first_of_range(s: Seq<char>, c: char)
    ensures
        0 <= first_of(s, c) <= s.len(),
        first_of(s, c) < s.len() ==> s[first_of(s, c)] == c,
        forall|j: int| 0 <= j < first_of(s, c) ==> s[j] != c,
    decreases s.len(),
{
    if s.len() > 0 && s[0] != c {
        lemma_first_of_range(s.drop_first(), c);
        assert forall|j: int| 0 <= j < first_of(s, c) implies s[j] != c by {
            if j > 0 {
                assert(s[j] == s.drop_first()[j - 1]);
            }
        }
    }
}

/// Splitting into lines loses and adds nothing: the lines put back together
/// are the text.
pub proof fn lines_rejoin_to_text(s: Seq<char>)
    ensures
        join_all(incl_lines(s)) == s,
    decreases s.len(),
{
    if s.len() > 0 {
        let i = first_of(s, '\n');
        lemma_first_of_range(s, '\n');
        if 0 <= i < s.len() {
            lines_rejoin_to_text(s.skip(i + 1));
            let ls = incl_lines(s);
            assert(ls == seq![s.take(i + 1)] + incl_lines(s.skip(i + 1)));
            assert(ls[0] == s.take(i + 1));
            assert(ls.drop_first() =~= incl_lines(s.skip(i + 1)));
            assert(join_all(ls) == ls[0] + join_all(ls.drop_first()));
            assert(s =~= s.take(i + 1) + s.skip(i + 1));
        } else {
            let ls = incl_lines(s);
            assert(ls == seq![s]);
            assert(ls.drop_first() =~= Seq::<Seq<char>>::empty());
            assert(join_all(ls) == ls[0] + join_all(ls.drop_first()));
            assert(s + Seq::<char>::empty() =~= s);
        }
    }
}

/// The lines of `content`, each with its `\n`.
pub fn split_lines_inclusive(content: &str) -> (r: Vec<String>)
    ensures
        crate::text::string_views(r@) == incl_lines(content@),
{
    let n = content.unicode_len();
    let mut out: Vec<String> = Vec::new();
    let mut cur = String::new();
    let mut start: usize = 0;
    let mut i: usize = 0;
    assert(content@.skip(0) =~= content@);
    assert(crate::text::string_views(out@) + incl_lines(content@) =~= incl_lines(content@));
    while i < n
        invariant
            n == content@.len(),
            start <= i <= n,
            cur@ == content@.subrange(start as int, i as int),
            forall|j: int| start <= j < i ==> content@[j] != '\n',
            crate::text::string_views(out@) + incl_lines(content@.skip(start as int)) == incl_lines(content@),
        decreases n - i,
    {
        let c = content.get_char(i);
        push_char(&mut cur, c);
        if c == '\n' {
            let ghost rest = content@.skip(start as int);
            proof {
                lemma_first_of(rest, '\n', i - start);
                assert(rest.take(i - start + 1) =~= cur@);
                assert(rest.skip(i - start + 1) =~= content@.skip(i + 1));
            }
            let ghost before = crate::text::string_views(out@);
            out.push(cur);
            assert(crate::text::string_views(out@) =~= before.push(rest.take(i - start + 1)));
            cur = String::new();
            start = i + 1;
        } else {
            assert(cur@ =~= content@.subrange(start as int, i + 1));
        }
        i = i + 1;
    }
    proof {
        let rest = content@.skip(start as int);
        lemma_first_of(rest, '\n', n - start);
        assert(cur@ =~= rest);
    }
    if start < n {
        let ghost before = crate::text::string_views(out@);
        out.push(cur);
        assert(crate::text::string_views(out@) =~= before.push(content@.skip(start as int)));
    } else {
        assert(content@.skip(start as int) =~= Seq::<char>::empty());
        assert(crate::text::string_views(out@) + Seq::<Seq<char>>::empty() =~= crate::text::string_views(out@));
    }
    out
}

// ───────────────────────── frontmatter ─────────────────────────

/// Where a line scan stands with respect to the leading frontmatter block.
#[derive(Debug, Clone, Copy, PartialEq, Eq, Structural)]
pub enum FrontmatterState {
    /// Before the first line.
    Start,
    /// Inside the block opened by a first line `---`.
    In,
    /// Past the block (or there was none).
    Done,
}

/// `s` without its trailing `\r` and `\n` characters.
pub open spec fn trim_eol(s: Seq<char>) -> Seq<char>
    decreases s.len(),
{
    if s.len() > 0 && (s.last() == '\r' || s.last() == '\n') {
        trim_eol(s.drop_last())
    } else {
        s
    }
}

pub open spec fn is_dashes3(s: Seq<char>) -> bool {
    s == seq!['-', '-', '-']
}

/// The next state, and whether the line belongs to the frontmatter.
pub open spec fn fm_observe(st: FrontmatterState, line: Seq<char>) -> (FrontmatterState, bool) {
    let t = trim_eol(line);
    match st {
        FrontmatterState::Start => if is_dashes3(t) {
            (FrontmatterState::In, true)
        } else {
            (FrontmatterState::Done, false)
        },
        FrontmatterState::In => if is_dashes3(t) {
            (FrontmatterState::Done, true)
        } else {
            (FrontmatterState::In, true)
        },
        FrontmatterState::Done => (FrontmatterState::Done, false),
    }
}

/// Whether `line`, without its line ending, is exactly `---`.
fn is_delimiter(line: &str) -> (r: bool)
    ensures
        r == is_dashes3(trim_eol(line@)),
{
    let n = line.unicode_len();
    let mut end: usize = n;
    proof {
        assert(line@.subrange(0, n as int) =~= line@);
    }
    while end > 0 && (line.get_char(end - 1) == '\r' || line.get_char(end - 1) == '\n')
        invariant
            n == line@.len(),
            end <= n,
            trim_eol(line@.subrange(0, end as int)) == trim_eol(line@),
        decreases end,
    {
        assert(line@.subrange(0, end as int).drop_last() =~= line@.subrange(0, end - 1));
        end = end - 1;
    }
    let t = line.substring_char(0, end);
    assert(t@ =~= line@.subrange(0, end as int));
    if t.unicode_len() != 3 {
        return false;
    }
    let r = t.get_char(0) == '-' && t.get_char(1) == '-' && t.get_char(2) == '-';
    assert(r == (t@ =~= seq!['-', '-', '-']));
    r
}

impl FrontmatterState {
    /// Advance past `line`; returns whether the line is part of the frontmatter.
    pub fn observe_line(&mut self, line: &str) -> (r: bool)
        ensures
            (*final(self), r) == fm_observe(*old(self), line@),
    {
        let delim = is_delimiter(line);
        match *self {
            FrontmatterState::Start => {
                if delim {
                    *self = FrontmatterState::In;
                    true
                } else {
                    *self = FrontmatterState::Done;
                    false
                }
            },
            FrontmatterState::In => {
                if delim {
                    *self = FrontmatterState::Done;
                }
                true
            },
            FrontmatterState::Done => false,
        }
    }
}

// ───────────────────────── one segment ─────────────────────────

/// `s[pos..]` with every occurrence of the non-empty `p`, found left to right
/// without overlap, replaced by `t`.
pub open spec fn replace_from(s: Seq<char>, p: Seq<char>, t: Seq<char>, pos: int) -> Seq<char>
    decreases s.len() - pos,
{
    if pos < 0 || p.len() == 0 || pos >= s.len() {
        seq![]
    } else if pos + p.len() > s.len() {
        s.skip(pos)
    } else if s.subrange(pos, pos + p.len()) == p {
        t + replace_from(s, p, t, pos + p.len())
    } else {
        seq![s[pos]] + replace_from(s, p, t, pos + 1)
    }
}

/// `t` before, between and after the characters of `s`: what replacing the
/// empty pattern gives.
pub open spec fn interleave(s: Seq<char>, t: Seq<char>) -> Seq<char>
    decreases s.len(),
{
    if s.len() == 0 {
        t
    } else {
        t + seq![s[0]] + interleave(s.drop_first(), t)
    }
}

/// `str::replace(s, p, t)`.
pub open spec fn replace_spec(s: Seq<char>, p: Seq<char>, t: Seq<char>) -> Seq<char> {
    if p.len() == 0 {
        interleave(s, t)
    } else {
        replace_from(s, p, t, 0)
    }
}

/// `str::matches(s, p).count()`.
pub open spec fn count_spec(s: Seq<char>, p: Seq<char>) -> nat {
    if p.len() == 0 {
        s.len() + 1
    } else {
        spans_from(s, p, 0).len()
    }
}

/// What `regex::Regex::replace_all` gives for `pattern` on `haystack` with
/// `replacement`; `None` when the pattern does not compile.
pub uninterp spec fn regex_replaced(pattern: Seq<char>, haystack: Seq<char>, replacement: Seq<char>) -> Option<Seq<char>>;

/// Compiles `pattern` with `regex::Regex::new` and runs `replace_all` on
/// `haystack`; the result is named `regex_replaced`.
#[verifier::external_body]
fn regex_replace_all(pattern: &str, haystack: &str, replacement: &str) -> (r: Option<String>)
    ensures
        match r {
            Some(v) => regex_replaced(pattern@, haystack@, replacement@) == Some(v@),
            None => regex_replaced(pattern@, haystack@, replacement@) is None,
        },
{
    regex::Regex::new(pattern).ok().map(|re| re.replace_all(haystack, replacement).into_owned())
}

/// The rewritten segment and the number of substitutions made in it.
pub open spec fn segment_result(seg: Seq<char>, from: Seq<char>, to: Seq<char>, literal: bool) -> (Seq<char>, nat) {
    if literal {
        let n = count_spec(seg, from);
        if n == 0 {
            (seg, 0)
        } else {
            (replace_spec(seg, from, to), n)
        }
    } else {
        match regex_spans(from, seg) {
            Some(v) => if v.len() == 0 {
                (seg, 0)
            } else {
                (
                    match regex_replaced(from, seg, to) {
                        Some(x) => x,
                        None => seg,
                    },
                    v.len(),
                )
            },
            None => (seg, 0),
        }
    }
}

/// `min(n, usize::MAX)`.
pub open spec fn capped(n: nat) -> nat {
    if n <= usize::MAX {
        n
    } else {
        usize::MAX as nat
    }
}

fn replace_nonempty(s: &str, p: &str, t: &str) -> (r: (String, usize))
    requires
        p@.len() > 0,
    ensures
        r.0@ == replace_from(s@, p@, t@, 0),
        r.1 == spans_from(s@, p@, 0).len(),
{
    let sl = s.unicode_len();
    let pl = p.unicode_len();
    let mut out = String::new();
    let mut count: usize = 0;
    let mut pos: usize = 0;
    proof {
        crate::find::lemma_spans_len(s@, p@, 0);
    }
    while pos < sl
        invariant
            sl == s@.len(),
            pl == p@.len(),
            pl > 0,
            pos <= sl,
            out@ + replace_from(s@, p@, t@, pos as int) == replace_from(s@, p@, t@, 0),
            count + spans_from(s@, p@, pos as int).len() == spans_from(s@, p@, 0).len(),
            spans_from(s@, p@, 0).len() <= sl,
        decreases sl - pos,
    {
        if pl > sl - pos {
            let rest = s.substring_char(pos, sl);
            assert(rest@ =~= s@.skip(pos as int));
            assert(spans_from(s@, p@, pos as int).len() == 0);
            out.append(rest);
            assert(replace_from(s@, p@, t@, sl as int) =~= Seq::<char>::empty());
            assert(out@ + replace_from(s@, p@, t@, sl as int) =~= out@);
            pos = sl;
        } else if matches_at(s, p, pos) {
            assert(spans_from(s@, p@, pos as int).len() == 1 + spans_from(s@, p@, pos + pl).len());
            let ghost before = out@;
            out.append(t);
            assert(before + replace_from(s@, p@, t@, pos as int) =~= out@ + replace_from(
                s@,
                p@,
                t@,
                pos + pl,
            ));
            count = count + 1;
            pos = pos + pl;
        } else {
            let ghost before = out@;
            push_char(&mut out, s.get_char(pos));
            assert(before + replace_from(s@, p@, t@, pos as int) =~= out@ + replace_from(
                s@,
                p@,
                t@,
                pos + 1,
            ));
            pos = pos + 1;
        }
    }
    assert(replace_from(s@, p@, t@, pos as int) =~= Seq::<char>::empty());
    assert(out@ + Seq::<char>::empty() =~= out@);
    (out, count)
}

fn replace_empty(s: &str, t: &str) -> (r: String)
    ensures
        r@ == interleave(s@, t@),
{
    let n = s.unicode_len();
    let mut out = String::new();
    let mut i: usize = 0;
    assert(s@.skip(0) =~= s@);
    while i < n
        invariant
            n == s@.len(),
            i <= n,
            out@ + interleave(s@.skip(i as int), t@) == interleave(s@, t@),
        decreases n - i,
    {
        let ghost before = out@;
        out.append(t);
        push_char(&mut out, s.get_char(i));
        assert(s@.skip(i as int).drop_first() =~= s@.skip(i + 1));
        assert(before + interleave(s@.skip(i as int), t@) =~= out@ + interleave(s@.skip(i + 1), t@));
        i = i + 1;
    }
    out.append(t);
    assert(s@.skip(n as int) =~= Seq::<char>::empty());
    out
}

/// Rewrite one segment; the count is capped at `usize::MAX`.
pub fn rewrite_segment(segment: &str, from: &str, to: &str, literal: bool) -> (r: (String, usize))
    ensures
        r.0@ == segment_result(segment@, from@, to@, literal).0,
        r.1 as nat == capped(segment_result(segment@, from@, to@, literal).1),
{
    if literal {
        if from.unicode_len() == 0 {
            let n = segment.unicode_len();
            let count = if n < usize::MAX {
                n + 1
            } else {
                usize::MAX
            };
            (replace_empty(segment, to), count)
        } else {
            let (out, count) = replace_nonempty(segment, from, to);
            if count == 0 {
                (segment.to_owned(), 0)
            } else {
                (out, count)
            }
        }
    } else {
        match regex_find_all(from, segment) {
            Some(v) => {
                if v.len() == 0 {
                    (segment.to_owned(), 0)
                } else {
                    match regex_replace_all(from, segment, to) {
                        Some(x) => (x, v.len()),
                        None => (segment.to_owned(), v.len()),
                    }
                }
            },
            None => (segment.to_owned(), 0),
        }
    }
}

// ───────────────────────── a whole file ─────────────────────────

/// The settings a rewrite reads, as plain values: from, to, literal, inside
/// code blocks, inside the frontmatter.
pub type RenameView = (Seq<char>, Seq<char>, bool, bool, bool);

pub open spec fn rename_view(op: TextRenameOp) -> RenameView {
    (op.from@, op.to@, op.literal, op.match_in_code_blocks, op.match_in_frontmatter)
}

/// The rewritten text of `lines` and the substitutions made, scanning from
/// frontmatter state `fm` and fence state `fence`.
pub open spec fn rewrite_lines(
    lines: Seq<Seq<char>>,
    fm: FrontmatterState,
    fence: FenceState,
    v: RenameView,
) -> (Seq<char>, nat)
    decreases lines.len(),
{
    if lines.len() == 0 {
        (seq![], 0)
    } else {
        let line = lines[0];
        let (fm2, in_fm) = fm_observe(fm, line);
        let fence2 = fence_step(fence, encode_utf8(line));
        let skip = (!v.4 && in_fm) || (!v.3 && fence2.in_block);
        let (piece, n) = if skip {
            (line, 0nat)
        } else {
            segment_result(line, v.0, v.1, v.2)
        };
        let (rest, m) = rewrite_lines(lines.drop_first(), fm2, fence2, v);
        (piece + rest, n + m)
    }
}

/// The rewrite of a whole text.
pub open spec fn rewrite_spec(content: Seq<char>, v: RenameView) -> (Seq<char>, nat) {
    rewrite_lines(incl_lines(content), FrontmatterState::Start, fence_closed(), v)
}

/// Rewrite `content` line by line; returns the new text and the number of
/// substitutions (capped at `usize::MAX`).
pub fn rewrite_content(content: &str, op: &TextRenameOp) -> (r: (String, usize))
    ensures
        r.0@ == rewrite_spec(content@, rename_view(*op)).0,
        r.1 as nat == capped(rewrite_spec(content@, rename_view(*op)).1),
{
    let lines = split_lines_inclusive(content);
    let ghost lv = crate::text::string_views(lines@);
    let ghost v = rename_view(*op);
    let mut out = String::new();
    let mut subs: usize = 0;
    let ghost mut done: nat = 0;
    let mut fence = FenceState::default();
    let mut fm = FrontmatterState::Start;
    let mut i: usize = 0;
    assert(lv.skip(0) =~= lv);
    while i < lines.len()
        invariant
            lv == crate::text::string_views(lines@),
            lv == incl_lines(content@),
            v == rename_view(*op),
            i <= lines@.len(),
            out@ + rewrite_lines(lv.skip(i as int), fm, fence, v).0 == rewrite_spec(content@, v).0,
            done + rewrite_lines(lv.skip(i as int), fm, fence, v).1 == rewrite_spec(content@, v).1,
            subs as nat == capped(done),
        decreases lines@.len() - i,
    {
        let line = lines[i].as_str();
        let ghost tail = lv.skip(i as int);
        assert(tail[0] == line@);
        assert(tail.drop_first() =~= lv.skip(i + 1));
        let ghost fm0 = fm;
        let ghost fence0 = fence;
        let in_fm = fm.observe_line(line);
        fence.observe_line(line);
        let in_code = fence.in_code_block();
        let skip = (!op.match_in_frontmatter && in_fm) || (!op.match_in_code_blocks && in_code);
        let ghost before = out@;
        let ghost (rest, m) = rewrite_lines(lv.skip(i + 1), fm, fence, v);
        if skip {
            out.append(line);
            assert(before + rewrite_lines(tail, fm0, fence0, v).0 =~= out@ + rest);
        } else {
            let (piece, n) = rewrite_segment(line, op.from.as_str(), op.to.as_str(), op.literal);
            out.append(piece.as_str());
            assert(before + rewrite_lines(tail, fm0, fence0, v).0 =~= out@ + rest);
            proof {
                done = done + segment_result(line@, v.0, v.1, v.2).1;
            }
            subs = subs.saturating_add(n);
        }
        i = i + 1;
    }
    assert(lv.skip(i as int) =~= Seq::<Seq<char>>::empty());
    assert(out@ + Seq::<char>::empty() =~= out@);
    (out, subs)
}

/// A file in which nothing was substituted comes out unchanged.
pub proof fn no_substitution_leaves_text_unchanged(content: Seq<char>, v: RenameView)
    requires
        rewrite_spec(content, v).1 == 0,
    ensures
        rewrite_spec(content, v).0 == content,
{
    lemma_unchanged_lines(incl_lines(content), FrontmatterState::Start, fence_closed(), v);
    lines_rejoin_to_text(content);
}

proof fn lemma_unchanged_lines(lines: Seq<Seq<char>>, fm: FrontmatterState, fence: FenceState, v: RenameView)
    requires
        rewrite_lines(lines, fm, fence, v).1 == 0,
    ensures
        rewrite_lines(lines, fm, fence, v).0 == join_all(lines),
    decreases lines.len(),
{
    if lines.len() > 0 {
        let line = lines[0];
        let (fm2, _) = fm_observe(fm, line);
        let fence2 = fence_step(fence, encode_utf8(line));
        lemma_unchanged_lines(lines.drop_first(), fm2, fence2, v);
    }
}

// ───────────────────────── warnings ─────────────────────────

/// `t` occurs in `s` (the empty text occurs everywhere).
pub open spec fn contains_spec(s: Seq<char>, t: Seq<char>) -> bool {
    exists|i: int| 0 <= i && i + t.len() <= s.len() && #[trigger] s.subrange(i, i + t.len()) == t
}

/// Whether `t` occurs in `s`.
pub fn contains_text(s: &str, t: &str) -> (r: bool)
    ensures
        r == contains_spec(s@, t@),
{
    let sl = s.unicode_len();
    let tl = t.unicode_len();
    if tl > sl {
        return false;
    }
    let last = sl - tl;
    let mut i: usize = 0;
    loop
        invariant
            sl == s@.len(),
            tl == t@.len(),
            last == sl - tl,
            i <= last,
            forall|j: int| 0 <= j < i ==> #[trigger] s@.subrange(j, j + tl) != t@,
        decreases last - i,
    {
        if matches_at(s, t, i) {
            return true;
        }
        if i == last {
            return false;
        }
        i = i + 1;
    }
}

/// A character that continues a name: ASCII letter or digit, `-`, `_` or `.`.
pub open spec fn compound_char(c: char) -> bool {
    ('a' <= c && c <= 'z') || ('A' <= c && c <= 'Z') || ('0' <= c && c <= '9') || c == '-' || c == '_' || c == '.'
}

fn is_compound_char(c: char) -> (r: bool)
    ensures
        r == compound_char(c),
{
    ('a' <= c && c <= 'z') || ('A' <= c && c <= 'Z') || ('0' <= c && c <= '9') || c == '-' || c == '_' || c == '.'
}

/// The occurrence `sp` of a pattern in `s` touches a name character on either side.
pub open spec fn compound_at(s: Seq<char>, sp: (int, int)) -> bool {
    (sp.0 > 0 && compound_char(s[sp.0 - 1])) || (sp.1 < s.len() && compound_char(s[sp.1]))
}

/// Some occurrence of the non-empty `p` in `s` is part of a longer name.
pub open spec fn has_compound_spec(s: Seq<char>, p: Seq<char>) -> bool {
    p.len() > 0 && exists|k: int| 0 <= k < spans_from(s, p, 0).len() && compound_at(s, #[trigger] spans_from(s, p, 0)[k])
}

/// Whether an occurrence of `from` in `content` sits inside a longer name
/// (`apps-monorepo` inside `apps-monorepo-deploy`).
pub fn has_compound_match(content: &str, from: &str) -> (r: bool)
    ensures
        r == has_compound_spec(content@, from@),
{
    if from.unicode_len() == 0 {
        return false;
    }
    let n = content.unicode_len();
    let spans = crate::find::literal_spans(content, from);
    let ghost sv = spans@.map_values(|x: (usize, usize)| (x.0 as int, x.1 as int));
    proof {
        crate::find::lemma_spans_bounds(content@, from@, 0);
    }
    let mut k: usize = 0;
    while k < spans.len()
        invariant
            n == content@.len(),
            from@.len() > 0,
            sv == spans@.map_values(|x: (usize, usize)| (x.0 as int, x.1 as int)),
            sv == spans_from(content@, from@, 0),
            forall|q: int| 0 <= q < sv.len() ==> 0 <= #[trigger] sv[q].0 <= sv[q].1 <= content@.len(),
            k <= spans@.len(),
            forall|q: int| 0 <= q < k ==> !compound_at(content@, #[trigger] sv[q]),
        decreases spans@.len() - k,
    {
        let (a, b) = spans[k];
        assert(sv[k as int] == (a as int, b as int));
        let hit = (a > 0 && is_compound_char(content.get_char(a - 1))) || (b < n && is_compound_char(content.get_char(b)));
        if hit {
            assert(compound_at(content@, sv[k as int]));
            return true;
        }
        k = k + 1;
    }
    false
}

/// What a rename did to one file's text.
pub struct RenameOutcome {
    pub rewritten: String,
    pub substitutions: usize,
    /// The replacement text was already in the file before the rewrite.
    pub had_to_before: bool,
    /// A literal occurrence of `from` was part of a longer name.
    pub had_compound: bool,
}

/// Rewrite one file's text and note what deserves a warning.
pub fn rename_in_content(content: &str, op: &TextRenameOp) -> (r: RenameOutcome)
    ensures
        r.rewritten@ == rewrite_spec(content@, rename_view(*op)).0,
        r.substitutions as nat == capped(rewrite_spec(content@, rename_view(*op)).1),
        r.had_to_before == contains_spec(content@, op.to@),
        r.had_compound == (op.literal && has_compound_spec(content@, op.from@)),
{
    let had_to_before = contains_text(content, op.to.as_str());
    let had_compound = op.literal && has_compound_match(content, op.from.as_str());
    let (rewritten, substitutions) = rewrite_content(content, op);
    RenameOutcome { rewritten, substitutions, had_to_before, had_compound }
}

pub open spec fn warnings_spec(rel: Seq<char>, had_to_before: bool, had_compound: bool) -> Seq<Seq<char>> {
    (if had_to_before {
        seq!["to already present in "@ + rel]
    } else {
        seq![]
    }) + (if had_compound {
        seq!["compound match in "@ + rel]
    } else {
        seq![]
    })
}

/// The warnings a changed file at `rel` earns.
pub fn rename_warnings(rel: &str, had_to_before: bool, had_compound: bool) -> (r: Vec<String>)
    ensures
        crate::text::string_views(r@) == warnings_spec(rel@, had_to_before, had_compound),
{
    let mut out: Vec<String> = Vec::new();
    if had_to_before {
        let mut w = "to already present in ".to_owned();
        w.append(rel);
        out.push(w);
    }
    if had_compound {
        let mut w = "compound match in ".to_owned();
        w.append(rel);
        out.push(w);
    }
    proof {
        reveal_strlit("to already present in ");
        reveal_strlit("compound match in ");
    }
    assert(crate::text::string_views(out@) =~= warnings_spec(rel@, had_to_before, had_compound));
    out
}

// ───────────────────────── across files ─────────────────────────

/// Whether a rename changes a file's text.
pub open spec fn file_changes(content: Seq<char>, v: RenameView) -> bool {
    rewrite_spec(content, v).1 > 0
}

/// The files (by relative path) a rename changes, in the order given.
pub open spec fn changed_paths(files: Seq<(Seq<char>, Seq<char>)>, v: RenameView) -> Seq<Seq<char>>
    decreases files.len(),
{
    if files.len() == 0 {
        seq![]
    } else {
        changed_paths(files.drop_last(), v) + if file_changes(files.last().1, v) {
            seq![files.last().0]
        } else {
            seq![]
        }
    }
}

/// The new texts, by relative path, of the files a rename changes.
pub open spec fn changed_texts(files: Seq<(Seq<char>, Seq<char>)>, v: RenameView) -> Seq<(Seq<char>, Seq<char>)>
    decreases files.len(),
{
    if files.len() == 0 {
        seq![]
    } else {
        changed_texts(files.drop_last(), v) + if file_changes(files.last().1, v) {
            seq![(files.last().0, rewrite_spec(files.last().1, v).0)]
        } else {
            seq![]
        }
    }
}

/// The substitutions over all files, each file's count and the running
/// total capped at `usize::MAX`.
pub open spec fn total_substitutions(files: Seq<(Seq<char>, Seq<char>)>, v: RenameView) -> nat
    decreases files.len(),
{
    if files.len() == 0 {
        0
    } else {
        capped(total_substitutions(files.drop_last(), v) + capped(rewrite_spec(files.last().1, v).1))
    }
}

/// The warnings the changed files earn, in the order given.
pub open spec fn rename_warnings_all(files: Seq<(Seq<char>, Seq<char>)>, v: RenameView) -> Seq<Seq<char>>
    decreases files.len(),
{
    if files.len() == 0 {
        seq![]
    } else {
        let (rel, content) = files.last();
        rename_warnings_all(files.drop_last(), v) + if file_changes(content, v) {
            warnings_spec(rel, contains_spec(content, v.1), v.2 && has_compound_spec(content, v.0))
        } else {
            seq![]
        }
    }
}

/// What a rename across files comes to.
#[derive(Debug)]
pub struct TextRenameResult {
    /// The changed files' relative paths, sorted.
    pub files_changed: Vec<String>,
    pub total_substitutions: usize,
    /// The warnings, sorted.
    pub warnings: Vec<String>,
    /// For each changed file, its relative path and its new text.
    pub rewrites: Vec<(String, String)>,
}

/// Rename across the candidate files, given as (relative path, text): the
/// files with at least one substitution are rewritten, their paths and the
/// warnings they earn come back sorted, and the substitutions are summed.
pub fn rename_files(files: &Vec<(String, String)>, op: &TextRenameOp) -> (r: TextRenameResult)
    ensures
        ({
            let fv = crate::fm_schema::pairs_view(files@);
            let v = rename_view(*op);
            &&& crate::order::sorted_le(crate::text::string_views(r.files_changed@))
            &&& crate::text::string_views(r.files_changed@).to_multiset() == changed_paths(fv, v).to_multiset()
            &&& crate::order::sorted_le(crate::text::string_views(r.warnings@))
            &&& crate::text::string_views(r.warnings@).to_multiset() == rename_warnings_all(fv, v).to_multiset()
            &&& r.total_substitutions as nat == total_substitutions(fv, v)
            &&& crate::fm_schema::pairs_view(r.rewrites@) == changed_texts(fv, v)
        }),
{
    let ghost fv = crate::fm_schema::pairs_view(files@);
    let ghost v = rename_view(*op);
    let mut changed: Vec<String> = Vec::new();
    let mut warnings: Vec<String> = Vec::new();
    let mut rewrites: Vec<(String, String)> = Vec::new();
    let mut total: usize = 0;
    let mut i: usize = 0;
    assert(fv.take(0) =~= Seq::<(Seq<char>, Seq<char>)>::empty());
    while i < files.len()
        invariant
            fv == crate::fm_schema::pairs_view(files@),
            v == rename_view(*op),
            i <= files@.len(),
            crate::text::string_views(changed@) == changed_paths(fv.take(i as int), v),
            crate::text::string_views(warnings@) == rename_warnings_all(fv.take(i as int), v),
            total as nat == total_substitutions(fv.take(i as int), v),
            crate::fm_schema::pairs_view(rewrites@) == changed_texts(fv.take(i as int), v),
        decreases files@.len() - i,
    {
        let ghost pre = fv.take(i as int);
        let ghost cur = fv.take(i + 1);
        assert(cur.drop_last() =~= pre);
        assert(cur.last() == fv[i as int]);
        assert(cur.len() - 1 == i);
        let rel = files[i].0.as_str();
        let content = files[i].1.as_str();
        let outcome = rename_in_content(content, op);
        let ghost before_changed = crate::text::string_views(changed@);
        let ghost before_warn = crate::text::string_views(warnings@);
        let ghost before_rw = crate::fm_schema::pairs_view(rewrites@);
        if outcome.substitutions > 0 {
            let ws = rename_warnings(rel, outcome.had_to_before, outcome.had_compound);
            let mut k: usize = 0;
            while k < ws.len()
                invariant
                    k <= ws@.len(),
                    crate::text::string_views(warnings@) == before_warn + crate::text::string_views(ws@).take(k as int),
                decreases ws@.len() - k,
            {
                let ghost prev = crate::text::string_views(warnings@);
                let w = ws[k].clone();
                warnings.push(w);
                assert(crate::text::string_views(warnings@) =~= prev.push(ws@[k as int]@));
                assert(crate::text::string_views(ws@).take(k + 1) =~= crate::text::string_views(ws@).take(k as int).push(ws@[k as int]@));
                assert(crate::text::string_views(warnings@) =~= before_warn + crate::text::string_views(ws@).take(k + 1));
                k = k + 1;
            }
            assert(crate::text::string_views(ws@).take(k as int) =~= crate::text::string_views(ws@));
            changed.push(rel.to_owned());
            assert(crate::text::string_views(changed@) =~= before_changed.push(rel@));
            rewrites.push((rel.to_owned(), outcome.rewritten));
            assert(crate::fm_schema::pairs_view(rewrites@) =~= before_rw.push((rel@, outcome.rewritten@)));
            total = total.saturating_add(outcome.substitutions);
        } else {
            assert(before_changed + Seq::<Seq<char>>::empty() =~= before_changed);
            assert(before_warn + Seq::<Seq<char>>::empty() =~= before_warn);
            assert(before_rw + Seq::<(Seq<char>, Seq<char>)>::empty() =~= before_rw);
        }
        i = i + 1;
    }
    assert(fv.take(i as int) =~= fv);
    let files_changed = crate::order::sort_strings(&changed);
    let sorted_warnings = crate::order::sort_strings(&warnings);
    TextRenameResult { files_changed, total_substitutions: total, warnings: sorted_warnings, rewrites }
}

/// The files of `files` (relative path, text) a rename reads, in order.
pub open spec fn rename_candidates(root: Seq<char>, files: Seq<(Seq<char>, Seq<char>)>, op: TextRenameOp) -> Seq<(Seq<char>, Seq<char>)>
    decreases files.len(),
{
    if files.len() == 0 {
        seq![]
    } else {
        rename_candidates(root, files.drop_last(), op) + if crate::selection::rename_selects_spec(root, files.last().0, op) {
            seq![files.last()]
        } else {
            seq![]
        }
    }
}

/// Keep the files a rename reads.
pub fn select_rename_files(root: &str, files: &Vec<(String, String)>, op: &TextRenameOp) -> (r: Vec<(String, String)>)
    ensures
        crate::fm_schema::pairs_view(r@) == rename_candidates(root@, crate::fm_schema::pairs_view(files@), *op),
{
    let ghost fv = crate::fm_schema::pairs_view(files@);
    let mut out: Vec<(String, String)> = Vec::new();
    let mut i: usize = 0;
    assert(fv.take(0) =~= Seq::<(Seq<char>, Seq<char>)>::empty());
    while i < files.len()
        invariant
            fv == crate::fm_schema::pairs_view(files@),
            i <= fv.len(),
            crate::fm_schema::pairs_view(out@) == rename_candidates(root@, fv.take(i as int), *op),
        decreases fv.len() - i,
    {
        let ghost cur = fv.take(i + 1);
        assert(cur.drop_last() =~= fv.take(i as int));
        assert(cur.last() == fv[i as int]);
        let ghost before = crate::fm_schema::pairs_view(out@);
        if crate::selection::rename_selects(root, files[i].0.as_str(), op) {
            let rel = files[i].0.clone();
            let content = files[i].1.clone();
            out.push((rel, content));
            assert(crate::fm_schema::pairs_view(out@) =~= before + seq![fv[i as int]]);
        } else {
            assert(before + Seq::<(Seq<char>, Seq<char>)>::empty() =~= before);
        }
        i = i + 1;
    }
    assert(fv.take(i as int) =~= fv);
    out
}

/// The error a rename reports before it reads any file, if any: an include
/// or exclude glob the override builder refuses, or a pattern that does not
/// compile.
pub open spec fn rename_error(root: Seq<char>, op: TextRenameOp) -> Option<Seq<char>> {
    match crate::plan_validate::globs_result(root, crate::text::string_views(op.include_paths@)) {
        Some(e) => Some(e),
        None => match crate::plan_validate::globs_result(root, crate::text::string_views(op.exclude_paths@)) {
            Some(e) => Some(e),
            None => if !op.literal && crate::find::regex_rejects(op.from@) {
                Some("invalid regex: "@ + crate::find::regex_error(op.from@))
            } else {
                None
            },
        },
    }
}

/// Run a rename over the workspace files (relative path, text) under `root`:
/// check its globs and pattern, keep the files it reads, and rewrite them.
pub fn execute_rename(root: &str, files: &Vec<(String, String)>, op: &TextRenameOp) -> (r: Result<TextRenameResult, String>)
    ensures
        match r {
            Ok(res) => {
                let fv = rename_candidates(root@, crate::fm_schema::pairs_view(files@), *op);
                let v = rename_view(*op);
                &&& rename_error(root@, *op) is None
                &&& crate::order::sorted_le(crate::text::string_views(res.files_changed@))
                &&& crate::text::string_views(res.files_changed@).to_multiset() == changed_paths(fv, v).to_multiset()
                &&& crate::order::sorted_le(crate::text::string_views(res.warnings@))
                &&& crate::text::string_views(res.warnings@).to_multiset() == rename_warnings_all(fv, v).to_multiset()
                &&& res.total_substitutions as nat == total_substitutions(fv, v)
                &&& crate::fm_schema::pairs_view(res.rewrites@) == changed_texts(fv, v)
            },
            Err(e) => rename_error(root@, *op) == Some(e@),
        },
{
    match crate::plan_validate::validate_globs(root, &op.include_paths) {
        Ok(()) => {},
        Err(e) => {
            return Err(e);
        },
    }
    match crate::plan_validate::validate_globs(root, &op.exclude_paths) {
        Ok(()) => {},
        Err(e) => {
            return Err(e);
        },
    }
    if !op.literal {
        match crate::find::regex_check(op.from.as_str()) {
            Ok(()) => {},
            Err(e) => {
                proof {
                    reveal_strlit("invalid regex: ");
                }
                let mut m = "invalid regex: ".to_owned();
                m.append(e.as_str());
                return Err(m);
            },
        }
    }
    let selected = select_rename_files(root, files, op);
    Ok(rename_files(&selected, op))
}

} // verus!
