//! Frontmatter text: splitting a file into its `---` block and body, adding a
//! `schema_version` line, scaffolding a block for a file without one, and
//! reading the required-field table of the frontmatter specification.

use vstd::prelude::*;
use vstd::string::*;
use crate::fmt::{dec, push_decimal_u64};
use crate::text::{
    is_ws, lead_ws, lemma_lead_ws_bound, lines, lines_spec, push_char, str_eq, string_views, trim, trim_spec,
};
use crate::transaction::{find_seq, matches_at, starts_with_chars, starts_with_str};

verus! {

broadcast use vstd::seq::group_seq_axioms;

/// First index of `p` in `s`, as `str::find` gives it.
pub fn find_str(s: &str, p: &str) -> (r: Option<usize>)
    ensures
        match r {
            Some(i) => find_seq(s@, p@, 0) == i as int,
            None => find_seq(s@, p@, 0) == -1,
        },
{
    let sl = s.unicode_len();
    let pl = p.unicode_len();
    if pl > sl {
        assert(find_seq(s@, p@, 0) == -1);
        return None;
    }
    let mut i: usize = 0;
    while i <= sl - pl
        invariant
            sl == s@.len(),
            pl == p@.len(),
            pl <= sl,
            i <= sl - pl + 1,
            find_seq(s@, p@, i as int) == find_seq(s@, p@, 0),
        decreases sl + 1 - i,
    {
        if matches_at(s, p, i) {
            return Some(i);
        }
        if i == sl - pl {
            assert(find_seq(s@, p@, i + 1) == -1);
            return None;
        }
        i = i + 1;
    }
    None
}

pub open spec fn contains_seq(s: Seq<char>, p: Seq<char>) -> bool {
    find_seq(s, p, 0) >= 0
}

// ───────────────────────── splitting ─────────────────────────

pub open spec fn fm_open() -> Seq<char> {
    seq!['-', '-', '-', '\n']
}

pub open spec fn fm_close() -> Seq<char> {
    seq!['\n', '-', '-', '-', '\n']
}

pub open spec fn fm_close_at_end() -> Seq<char> {
    seq!['\n', '-', '-', '-']
}

/// `(frontmatter, body)`: a file that starts with `---\n` and has a later
/// `\n---\n` (or ends with `\n---`) splits around those delimiters; any other
/// file has no frontmatter and is all body.
pub open spec fn split_fm_spec(c: Seq<char>) -> (Option<Seq<char>>, Seq<char>) {
    if !starts_with_chars(c, fm_open()) {
        (None, c)
    } else {
        let a = c.skip(4);
        let p = find_seq(a, fm_close(), 0);
        if p >= 0 {
            (Some(a.take(p)), a.skip(p + 5))
        } else if a.len() >= 4 && a.skip(a.len() - 4) == fm_close_at_end() {
            (Some(a.take(a.len() - 4)), seq![])
        } else {
            (None, c)
        }
    }
}

pub open spec fn opt_chars(o: Option<String>) -> Option<Seq<char>> {
    match o {
        Some(s) => Some(s@),
        None => None,
    }
}

proof fn lemma_find_seq_bounds(s: Seq<char>, p: Seq<char>, from: int)
    requires
        0 <= from,
    ensures
        find_seq(s, p, from) == -1 || (from <= find_seq(s, p, from) && find_seq(s, p, from) + p.len() <= s.len()
            && s.subrange(find_seq(s, p, from), find_seq(s, p, from) + p.len()) == p),
    decreases s.len() + 1 - from,
{
    if from + p.len() <= s.len() && s.subrange(from, from + p.len()) != p {
        lemma_find_seq_bounds(s, p, from + 1);
    }
}

/// Split content into its raw frontmatter (without the `---` delimiters) and its body.
pub fn split_frontmatter(content: &str) -> (r: (Option<String>, String))
    ensures
        (opt_chars(r.0), r.1@) == split_fm_spec(content@),
{
    let open = "---\n";
    let close = "\n---\n";
    let close_end = "\n---";
    proof {
        reveal_strlit("---\n");
        reveal_strlit("\n---\n");
        reveal_strlit("\n---");
    }
    assert(open@ =~= fm_open());
    assert(close@ =~= fm_close());
    assert(close_end@ =~= fm_close_at_end());
    if !starts_with_str(content, open) {
        return (None, content.to_owned());
    }
    let n = content.unicode_len();
    let after = content.substring_char(4, n);
    assert(after@ =~= content@.skip(4));
    let al = after.unicode_len();
    match find_str(after, close) {
        Some(pos) => {
            proof {
                lemma_find_seq_bounds(after@, close@, 0);
            }
            let fm = after.substring_char(0, pos).to_owned();
            let body = after.substring_char(pos + 5, al).to_owned();
            assert(fm@ =~= after@.take(pos as int));
            assert(body@ =~= after@.skip(pos + 5));
            (Some(fm), body)
        },
        None => {
            if al >= 4 && after.get_char(al - 4) == '\n' && after.get_char(al - 3) == '-' && after.get_char(al - 2)
                == '-' && after.get_char(al - 1) == '-' {
                assert(after@.skip(al - 4) =~= fm_close_at_end());
                let fm = after.substring_char(0, al - 4).to_owned();
                assert(fm@ =~= after@.take(al - 4));
                (Some(fm), String::new())
            } else {
                proof {
                    if al >= 4 && after@.skip(al - 4) == fm_close_at_end() {
                        assert(after@.skip(al - 4)[0] == after@[al - 4]);
                        assert(after@.skip(al - 4)[1] == after@[al - 3]);
                        assert(after@.skip(al - 4)[2] == after@[al - 2]);
                        assert(after@.skip(al - 4)[3] == after@[al - 1]);
                    }
                }
                (None, content.to_owned())
            }
        },
    }
}

/// The file text for frontmatter `raw_fm` (newline-terminated) and `body`:
/// `---\n{raw_fm}---\n{body}`.
pub open spec fn fm_document_spec(raw_fm: Seq<char>, body: Seq<char>) -> Seq<char> {
    let block = if raw_fm.len() > 0 && raw_fm.last() == '\n' {
        raw_fm
    } else {
        raw_fm.push('\n')
    };
    fm_open() + block + fm_open() + body
}

/// The file text that writing frontmatter `raw_fm` over `body` produces.
pub fn frontmatter_document(raw_fm: &str, body: &str) -> (r: String)
    ensures
        r@ == fm_document_spec(raw_fm@, body@),
{
    let open = "---\n";
    proof {
        reveal_strlit("---\n");
    }
    let mut out = open.to_owned();
    out.append(raw_fm);
    let n = raw_fm.unicode_len();
    if !(n > 0 && raw_fm.get_char(n - 1) == '\n') {
        push_char(&mut out, '\n');
    }
    out.append(open);
    out.append(body);
    assert(out@ =~= fm_document_spec(raw_fm@, body@));
    out
}

// ───────────────────────── joining lines ─────────────────────────

/// Lines joined with `\n`.
pub open spec fn join_nl(ls: Seq<Seq<char>>) -> Seq<char>
    decreases ls.len(),
{
    if ls.len() == 0 {
        seq![]
    } else if ls.len() == 1 {
        ls[0]
    } else {
        join_nl(ls.drop_last()) + seq!['\n'] + ls.last()
    }
}

/// The lines joined with `\n`.
pub fn join_lines(v: &Vec<String>) -> (r: String)
    ensures
        r@ == join_nl(string_views(v@)),
{
    let n = v.len();
    if n == 0 {
        return String::new();
    }
    let mut out = v[0].clone();
    let mut i: usize = 1;
    assert(string_views(v@).take(1) =~= seq![v@[0]@]);
    while i < n
        invariant
            n == v@.len(),
            1 <= i <= n,
            out@ == join_nl(string_views(v@).take(i as int)),
        decreases n - i,
    {
        let ghost before = string_views(v@).take(i as int);
        push_char(&mut out, '\n');
        out.append(v[i].as_str());
        proof {
            let after = string_views(v@).take(i + 1);
            assert(after.drop_last() =~= before);
            assert(after.last() == v@[i as int]@);
        }
        i = i + 1;
    }
    assert(string_views(v@).take(n as int) =~= string_views(v@));
    out
}

// ───────────────────────── schema_version ─────────────────────────

pub open spec fn sv_key() -> Seq<char> {
    seq!['s', 'c', 'h', 'e', 'm', 'a', '_', 'v', 'e', 'r', 's', 'i', 'o', 'n', ':']
}

pub open spec fn updated_key() -> Seq<char> {
    seq!['u', 'p', 'd', 'a', 't', 'e', 'd', ':']
}

pub open spec fn created_key() -> Seq<char> {
    seq!['c', 'r', 'e', 'a', 't', 'e', 'd', ':']
}

/// `schema_version: {version}`
pub open spec fn sv_line(version: nat) -> Seq<char> {
    sv_key() + seq![' '] + dec(version)
}

/// Last index of a line starting with `p`, or `-1`.
pub open spec fn last_with_prefix(ls: Seq<Seq<char>>, p: Seq<char>) -> int
    decreases ls.len(),
{
    if ls.len() == 0 {
        -1
    } else if starts_with_chars(ls.last(), p) {
        ls.len() - 1
    } else {
        last_with_prefix(ls.drop_last(), p)
    }
}

/// Where a new `schema_version` line goes: after the last `updated:` line,
/// else after the last `created:` line, else at the end.
pub open spec fn sv_insert_at(ls: Seq<Seq<char>>) -> int {
    if last_with_prefix(ls, updated_key()) >= 0 {
        last_with_prefix(ls, updated_key()) + 1
    } else if last_with_prefix(ls, created_key()) >= 0 {
        last_with_prefix(ls, created_key()) + 1
    } else {
        ls.len() as int
    }
}

/// Frontmatter with `schema_version: {version}`: every line that starts (after
/// leading whitespace) with `schema_version:` is replaced when the key occurs
/// at all; otherwise the line is inserted at `sv_insert_at`. Lines are joined
/// with `\n` (no final newline).
pub open spec fn insert_sv_spec(raw: Seq<char>, version: nat) -> Seq<char> {
    let ls = lines_spec(raw);
    if contains_seq(raw, sv_key()) {
        join_nl(
            Seq::new(
                ls.len(),
                |i: int|
                    if starts_with_chars(ls[i].skip(lead_ws(ls[i]) as int), sv_key()) {
                        sv_line(version)
                    } else {
                        ls[i]
                    },
            ),
        )
    } else {
        join_nl(ls.insert(sv_insert_at(ls), sv_line(version)))
    }
}

fn last_with_prefix_exec(ls: &Vec<String>, p: &str) -> (r: Option<usize>)
    ensures
        match r {
            Some(i) => last_with_prefix(string_views(ls@), p@) == i as int,
            None => last_with_prefix(string_views(ls@), p@) == -1,
        },
{
    let mut k: usize = ls.len();
    assert(string_views(ls@).take(k as int) =~= string_views(ls@));
    while k > 0
        invariant
            k <= ls@.len(),
            last_with_prefix(string_views(ls@).take(k as int), p@) == last_with_prefix(string_views(ls@), p@),
        decreases k,
    {
        let ghost t = string_views(ls@).take(k as int);
        assert(t.last() == ls@[k - 1]@);
        assert(t.drop_last() =~= string_views(ls@).take(k - 1));
        if starts_with_str(ls[k - 1].as_str(), p) {
            return Some(k - 1);
        }
        k = k - 1;
    }
    None
}

/// Add `schema_version: {version}` to raw frontmatter, replacing an existing one.
pub fn insert_schema_version(raw_fm: &str, version: u32) -> (r: String)
    ensures
        r@ == insert_sv_spec(raw_fm@, version as nat),
{
    let key = "schema_version:";
    let upd = "updated:";
    let cre = "created:";
    proof {
        reveal_strlit("schema_version:");
        reveal_strlit("updated:");
        reveal_strlit("created:");
    }
    assert(key@ =~= sv_key());
    assert(upd@ =~= updated_key());
    assert(cre@ =~= created_key());
    let mut new_line = key.to_owned();
    push_char(&mut new_line, ' ');
    push_decimal_u64(&mut new_line, version as u64);
    assert(new_line@ =~= sv_line(version as nat));
    let ls = lines(raw_fm);
    let ghost lv = string_views(ls@);
    if find_str(raw_fm, key).is_some() {
        let ghost target = Seq::new(
            lv.len(),
            |j: int|
                if starts_with_chars(lv[j].skip(lead_ws(lv[j]) as int), sv_key()) {
                    sv_line(version as nat)
                } else {
                    lv[j]
                },
        );
        let mut out: Vec<String> = Vec::new();
        let mut i: usize = 0;
        while i < ls.len()
            invariant
                lv == string_views(ls@),
                target.len() == lv.len(),
                forall|j: int| 0 <= j < lv.len() ==> #[trigger] target[j] == (if starts_with_chars(lv[j].skip(lead_ws(lv[j]) as int), sv_key()) {
                    sv_line(version as nat)
                } else {
                    lv[j]
                }),
                new_line@ == sv_line(version as nat),
                key@ == sv_key(),
                0 <= i <= ls@.len(),
                string_views(out@) =~= target.take(i as int),
            decreases ls@.len() - i,
        {
            let line = ls[i].as_str();
            let t = crate::text::trim_start(line);
            let ghost before = string_views(out@);
            assert(lv[i as int] == line@);
            if starts_with_str(t, key) {
                out.push(new_line.clone());
            } else {
                out.push(line.to_owned());
            }
            assert(string_views(out@) =~= before.push(target[i as int]));
            i = i + 1;
        }
        assert(target.take(i as int) =~= target);
        join_lines(&out)
    } else {
        let nls = ls.len();
        proof {
            lemma_last_with_prefix_bound(lv, updated_key());
            lemma_last_with_prefix_bound(lv, created_key());
            assert(lv.len() == nls);
        }
        let at = match last_with_prefix_exec(&ls, upd) {
            Some(k) => k + 1,
            None => match last_with_prefix_exec(&ls, cre) {
                Some(k) => k + 1,
                None => ls.len(),
            },
        };
        let mut v = ls;
        v.insert(at, new_line);
        assert(string_views(v@) =~= lv.insert(at as int, sv_line(version as nat)));
        join_lines(&v)
    }
}

proof fn lemma_last_with_prefix_bound(ls: Seq<Seq<char>>, p: Seq<char>)
    ensures
        -1 <= last_with_prefix(ls, p) < ls.len(),
    decreases ls.len(),
{
    if ls.len() > 0 && !starts_with_chars(ls.last(), p) {
        lemma_last_with_prefix_bound(ls.drop_last(), p);
    }
}

} // verus!

verus! {

// ───────────────────────── titles ─────────────────────────

/// What `char::to_uppercase` yields for `c` (Unicode case mapping; one or more characters).
pub uninterp spec fn char_upper(c: char) -> Seq<char>;

/// Calls `char::to_uppercase`; the result is named `char_upper`.
#[verifier::external_body]
fn to_upper(c: char) -> (r: String)
    ensures
        r@ == char_upper(c),
{
    c.to_uppercase().collect::<String>()
}

/// What `std::path::Path::file_stem` gives for a path, as text (`None` when there is no file name).
pub uninterp spec fn std_file_stem(p: Seq<char>) -> Option<Seq<char>>;

/// Calls `std::path::Path::file_stem`; the result is named `std_file_stem`.
#[verifier::external_body]
pub(crate) fn file_stem(p: &str) -> (r: Option<String>)
    ensures
        opt_chars(r) == std_file_stem(p@),
{
    std::path::Path::new(p).file_stem().and_then(|s| s.to_str()).map(|s| s.to_string())
}

/// Whether `c` has the Unicode `White_Space` property.
pub fn is_whitespace(c: char) -> (r: bool)
    ensures
        r == is_ws(c),
{
    ('\u{9}' <= c && c <= '\u{d}') || c == ' ' || c == '\u{85}' || c == '\u{a0}' || c == '\u{1680}' || ('\u{2000}' <= c
        && c <= '\u{200a}') || c == '\u{2028}' || c == '\u{2029}' || c == '\u{202f}' || c == '\u{205f}' || c
        == '\u{3000}'
}

/// Index of the first whitespace character of `s`, or `s.len()`.
pub open spec fn first_ws(s: Seq<char>) -> int
    decreases s.len(),
{
    if s.len() == 0 {
        0
    } else if is_ws(s[0]) {
        0
    } else {
        1 + first_ws(s.drop_first())
    }
}

pub proof fn lemma_first_ws(s: Seq<char>)
    ensures
        0 <= first_ws(s) <= s.len(),
        forall|j: int| 0 <= j < first_ws(s) ==> !is_ws(#[trigger] s[j]),
        first_ws(s) < s.len() ==> is_ws(s[first_ws(s)]),
    decreases s.len(),
{
    if s.len() > 0 && !is_ws(s[0]) {
        lemma_first_ws(s.drop_first());
        assert forall|j: int| 0 <= j < first_ws(s) implies !is_ws(#[trigger] s[j]) by {
            if j > 0 {
                assert(s[j] == s.drop_first()[j - 1]);
            }
        }
    }
}

/// The whitespace-separated words of `s`, as `str::split_whitespace` yields them.
pub open spec fn words(s: Seq<char>) -> Seq<Seq<char>>
    decreases s.len(),
{
    let t = s.skip(lead_ws(s) as int);
    proof {
        lemma_lead_ws_bound(s);
        lemma_first_ws(t);
    }
    if t.len() == 0 || first_ws(t) <= 0 {
        seq![]
    } else {
        seq![t.take(first_ws(t))] + words(t.skip(first_ws(t)))
    }
}

/// A word with its first character upper-cased.
pub open spec fn title_word(w: Seq<char>) -> Seq<char> {
    if w.len() == 0 {
        seq![]
    } else {
        char_upper(w[0]) + w.skip(1)
    }
}

/// Words joined with single spaces.
pub open spec fn join_sp(ws: Seq<Seq<char>>) -> Seq<char>
    decreases ws.len(),
{
    if ws.len() == 0 {
        seq![]
    } else if ws.len() == 1 {
        ws[0]
    } else {
        join_sp(ws.drop_last()) + seq![' '] + ws.last()
    }
}

/// Each word of `s` with its first character upper-cased, joined by single spaces.
pub open spec fn title_case_spec(s: Seq<char>) -> Seq<char> {
    join_sp(words(s).map_values(|w: Seq<char>| title_word(w)))
}

/// Title-case `s`: every whitespace-separated word gets an upper-case first character.
pub fn to_title_case(s: &str) -> (r: String)
    ensures
        r@ == title_case_spec(s@),
{
    let n = s.unicode_len();
    let mut out = String::new();
    let mut count: usize = 0;
    let mut i: usize = 0;
    let ghost mut done: Seq<Seq<char>> = seq![];
    proof {
        lemma_lead_ws_bound(s@);
        assert(s@.skip(0) =~= s@);
    }
    while i < n
        invariant
            n == s@.len(),
            0 <= i <= n,
            done + words(s@.skip(i as int)) == words(s@),
            out@ == join_sp(done.map_values(|w: Seq<char>| title_word(w))),
            count == done.len(),
            count <= i,
        decreases n - i,
    {
        let ghost rest = s@.skip(i as int);
        let c = s.get_char(i);
        if is_whitespace(c) {
            proof {
                assert(rest[0] == c);
                assert(lead_ws(rest) == 1 + lead_ws(rest.drop_first()));
                assert(rest.drop_first() =~= s@.skip(i + 1));
                lemma_lead_ws_bound(rest.drop_first());
                assert(rest.skip(lead_ws(rest) as int) =~= s@.skip(i + 1).skip(lead_ws(s@.skip(i + 1)) as int));
            }
            i = i + 1;
        } else {
            let mut j: usize = i;
            while j < n && !is_whitespace(s.get_char(j))
                invariant
                    n == s@.len(),
                    i <= j <= n,
                    forall|k: int| i <= k < j ==> !is_ws(#[trigger] s@[k]),
                decreases n - j,
            {
                j = j + 1;
            }
            let word = s.substring_char(i, j);
            let mut tw = to_upper(c);
            tw.append(s.substring_char(i + 1, j));
            proof {
                assert(lead_ws(rest) == 0);
                assert(rest.skip(0) =~= rest);
                lemma_first_ws(rest);
                assert(first_ws(rest) == j - i) by {
                    if first_ws(rest) < j - i {
                        assert(!is_ws(s@[i + first_ws(rest)]));
                        assert(rest[first_ws(rest)] == s@[i + first_ws(rest)]);
                    }
                    if first_ws(rest) > j - i {
                        assert(j < n);
                        assert(!is_ws(rest[j - i]));
                    }
                }
                assert(rest.take(j - i) =~= word@);
                assert(rest.skip(j - i) =~= s@.skip(j as int));
                assert(tw@ =~= title_word(word@));
            }
            if count > 0 {
                push_char(&mut out, ' ');
            }
            out.append(tw.as_str());
            proof {
                let nd = done.push(word@);
                let dm = done.map_values(|w: Seq<char>| title_word(w));
                let ndm = nd.map_values(|w: Seq<char>| title_word(w));
                assert(ndm =~= dm.push(title_word(word@)));
                assert(ndm.drop_last() =~= dm);
                if count == 0 {
                    assert(dm =~= Seq::<Seq<char>>::empty());
                    assert(out@ =~= join_sp(ndm));
                } else {
                    assert(out@ =~= join_sp(ndm));
                }
                assert(nd + words(s@.skip(j as int)) =~= done + words(rest));
                done = nd;
            }
            count = count + 1;
            i = j;
        }
    }
    proof {
        assert(s@.skip(n as int) =~= Seq::<char>::empty());
        assert(done + Seq::<Seq<char>>::empty() =~= done);
    }
    out
}

} // verus!

verus! {

/// The first `# ` heading of `ls` whose trimmed text is not empty.
pub open spec fn first_heading(ls: Seq<Seq<char>>) -> Option<Seq<char>>
    decreases ls.len(),
{
    if ls.len() == 0 {
        None
    } else if starts_with_chars(ls[0], seq!['#', ' ']) && trim_spec(ls[0].skip(2)).len() > 0 {
        Some(trim_spec(ls[0].skip(2)))
    } else {
        first_heading(ls.drop_first())
    }
}

/// `s` with every `-` replaced by a space.
pub open spec fn dashes_to_spaces(s: Seq<char>) -> Seq<char> {
    Seq::new(s.len(), |i: int| if s[i] == '-' { ' ' } else { s[i] })
}

pub open spec fn untitled() -> Seq<char> {
    seq!['U', 'n', 't', 'i', 't', 'l', 'e', 'd']
}

/// The title of a file: its first `# ` heading, else its file stem (or
/// `Untitled`) with dashes as spaces, title-cased.
pub open spec fn infer_title_spec(path: Seq<char>, body: Seq<char>) -> Seq<char> {
    match first_heading(lines_spec(body)) {
        Some(t) => t,
        None => title_case_spec(
            dashes_to_spaces(
                match std_file_stem(path) {
                    Some(s) => s,
                    None => untitled(),
                },
            ),
        ),
    }
}

/// Infer a title for the file at `file_path` with body `body`.
pub fn infer_title(file_path: &str, body: &str) -> (r: String)
    ensures
        r@ == infer_title_spec(file_path@, body@),
{
    let ls = lines(body);
    let ghost lv = string_views(ls@);
    let hp = "# ";
    proof {
        reveal_strlit("# ");
    }
    assert(hp@ =~= seq!['#', ' ']);
    let mut i: usize = 0;
    assert(lv.skip(0) =~= lv);
    while i < ls.len()
        invariant
            lv == string_views(ls@),
            lv == lines_spec(body@),
            hp@ == seq!['#', ' '],
            0 <= i <= ls@.len(),
            first_heading(lv.skip(i as int)) == first_heading(lv),
        decreases ls@.len() - i,
    {
        let line = ls[i].as_str();
        assert(lv.skip(i as int)[0] == line@);
        assert(lv.skip(i as int).drop_first() =~= lv.skip(i + 1));
        if starts_with_str(line, hp) {
            let ll = line.unicode_len();
            let after = line.substring_char(2, ll);
            assert(after@ =~= line@.skip(2));
            let heading = trim(after);
            if heading.unicode_len() > 0 {
                return heading.to_owned();
            }
        }
        i = i + 1;
    }
    assert(lv.skip(i as int) =~= Seq::<Seq<char>>::empty());
    let stem = match file_stem(file_path) {
        Some(s) => s,
        None => {
            let u = "Untitled";
            proof {
                reveal_strlit("Untitled");
            }
            assert(u@ =~= untitled());
            u.to_owned()
        },
    };
    let n = stem.as_str().unicode_len();
    let mut spaced = String::new();
    let mut k: usize = 0;
    while k < n
        invariant
            n == stem@.len(),
            0 <= k <= n,
            spaced@ =~= dashes_to_spaces(stem@).take(k as int),
        decreases n - k,
    {
        let c = stem.as_str().get_char(k);
        push_char(&mut spaced, if c == '-' { ' ' } else { c });
        k = k + 1;
    }
    assert(spaced@ =~= dashes_to_spaces(stem@));
    to_title_case(spaced.as_str())
}

/// `s` with every `"` written as `\"`.
pub open spec fn escape_quotes(s: Seq<char>) -> Seq<char>
    decreases s.len(),
{
    if s.len() == 0 {
        seq![]
    } else {
        escape_quotes(s.drop_last()) + if s.last() == '"' {
            seq!['\\', '"']
        } else {
            seq![s.last()]
        }
    }
}

/// New frontmatter for a file that has none:
/// `schema_version: 1\ntitle: "{title}"\n` with the inferred title, quotes escaped.
pub open spec fn scaffold_spec(path: Seq<char>, body: Seq<char>) -> Seq<char> {
    sv_line(1) + seq!['\n', 't', 'i', 't', 'l', 'e', ':', ' ', '"'] + escape_quotes(infer_title_spec(path, body))
        + seq!['"', '\n']
}

/// Scaffold frontmatter (without delimiters) for the file at `file_path`.
pub fn scaffold_frontmatter(file_path: &str, body: &str) -> (r: String)
    ensures
        r@ == scaffold_spec(file_path@, body@),
{
    let title = infer_title(file_path, body);
    let head = "schema_version: 1\ntitle: \"";
    proof {
        reveal_strlit("schema_version: 1\ntitle: \"");
    }
    let mut out = head.to_owned();
    assert(dec(1) =~= seq!['1']);
    assert(out@ =~= sv_line(1) + seq!['\n', 't', 'i', 't', 'l', 'e', ':', ' ', '"']);
    let ghost start = out@;
    let n = title.as_str().unicode_len();
    let mut k: usize = 0;
    while k < n
        invariant
            n == title@.len(),
            0 <= k <= n,
            out@ == start + escape_quotes(title@.take(k as int)),
        decreases n - k,
    {
        let c = title.as_str().get_char(k);
        assert(title@.take(k + 1).drop_last() =~= title@.take(k as int));
        if c == '"' {
            push_char(&mut out, '\\');
            push_char(&mut out, '"');
        } else {
            push_char(&mut out, c);
        }
        assert(out@ =~= start + escape_quotes(title@.take(k + 1)));
        k = k + 1;
    }
    assert(title@.take(n as int) =~= title@);
    push_char(&mut out, '"');
    push_char(&mut out, '\n');
    assert(out@ =~= scaffold_spec(file_path@, body@));
    out
}

// ───────────────────────── the required-field table ─────────────────────────

/// The text between backticks of a trimmed `` `name` `` cell (at least one character inside).
pub open spec fn extract_backtick_spec(s: Seq<char>) -> Option<Seq<char>> {
    let t = trim_spec(s);
    if t.len() > 2 && t[0] == '`' && t.last() == '`' {
        Some(t.subrange(1, t.len() - 1))
    } else {
        None
    }
}

/// The backtick-wrapped name of a table cell, if it is one.
pub fn extract_backtick(s: &str) -> (r: Option<String>)
    ensures
        opt_chars(r) == extract_backtick_spec(s@),
{
    let t = trim(s);
    let n = t.unicode_len();
    if n > 2 && t.get_char(0) == '`' && t.get_char(n - 1) == '`' {
        Some(t.substring_char(1, n - 1).to_owned())
    } else {
        None
    }
}

} // verus!

verus! {

pub open spec fn base_layer() -> Seq<char> {
    seq!['#', '#', ' ', 'B', 'a', 's', 'e', ' ', 'l', 'a', 'y', 'e', 'r']
}

pub open spec fn required_word() -> Seq<char> {
    seq!['r', 'e', 'q', 'u', 'i', 'r', 'e', 'd']
}

/// The first cell of a table row `|cell|...`: the text after the leading `|`
/// up to the next `|`.
pub open spec fn first_cell(l: Seq<char>) -> Seq<char> {
    let rest = l.skip(1);
    rest.take(crate::text::first_of(rest, '|'))
}

/// `c` with ASCII upper-case letters lowered.
pub open spec fn ascii_lower(c: char) -> char {
    if 'A' <= c && c <= 'Z' {
        ((c as u8) + 32) as char
    } else {
        c
    }
}

fn to_ascii_lower(c: char) -> (r: char)
    ensures
        r == ascii_lower(c),
{
    if 'A' <= c && c <= 'Z' {
        ((c as u8) + 32) as char
    } else {
        c
    }
}

/// Whether a cell reads `field` in any letter case (the table's header row).
pub open spec fn is_field_header(s: Seq<char>) -> bool {
    s.len() == 5 && ascii_lower(s[0]) == 'f' && ascii_lower(s[1]) == 'i' && ascii_lower(s[2]) == 'e'
        && ascii_lower(s[3]) == 'l' && ascii_lower(s[4]) == 'd'
}

/// The field named by one table row of the required section, if any: header
/// and separator rows name none.
pub open spec fn row_field(l: Seq<char>) -> Option<Seq<char>> {
    let cell = trim_spec(first_cell(l));
    if (cell.len() > 0 && cell[0] == '-') || is_field_header(cell) {
        None
    } else {
        extract_backtick_spec(cell)
    }
}

/// The fields of the "Base layer ... required" table: from a `## Base layer`
/// heading that mentions `required` up to the next `## ` heading, every table
/// row's backtick-wrapped first cell.
pub open spec fn base_fields(ls: Seq<Seq<char>>, in_section: bool) -> Set<Seq<char>>
    decreases ls.len(),
{
    if ls.len() == 0 {
        Set::empty()
    } else {
        let l = ls[0];
        let rest = ls.drop_first();
        if starts_with_chars(l, base_layer()) && contains_seq(l, required_word()) {
            base_fields(rest, true)
        } else if in_section && starts_with_chars(l, seq!['#', '#', ' ']) {
            Set::empty()
        } else if !in_section {
            base_fields(rest, false)
        } else if starts_with_chars(l, seq!['|']) {
            match row_field(l) {
                Some(f) => base_fields(rest, true).insert(f),
                None => base_fields(rest, true),
            }
        } else {
            base_fields(rest, true)
        }
    }
}

/// The fields of the required table in line order, repeats included.
pub open spec fn base_field_list(ls: Seq<Seq<char>>, in_section: bool) -> Seq<Seq<char>>
    decreases ls.len(),
{
    if ls.len() == 0 {
        seq![]
    } else {
        let l = ls[0];
        let rest = ls.drop_first();
        if starts_with_chars(l, base_layer()) && contains_seq(l, required_word()) {
            base_field_list(rest, true)
        } else if in_section && starts_with_chars(l, seq!['#', '#', ' ']) {
            seq![]
        } else if !in_section {
            base_field_list(rest, false)
        } else if starts_with_chars(l, seq!['|']) {
            match row_field(l) {
                Some(f) => seq![f] + base_field_list(rest, true),
                None => base_field_list(rest, true),
            }
        } else {
            base_field_list(rest, true)
        }
    }
}

/// `acc` followed by the items of `xs` that are new, each once, in order.
pub open spec fn dedup_append(acc: Seq<Seq<char>>, xs: Seq<Seq<char>>) -> Seq<Seq<char>>
    decreases xs.len(),
{
    if xs.len() == 0 {
        acc
    } else {
        dedup_append(
            if acc.contains(xs[0]) {
                acc
            } else {
                acc.push(xs[0])
            },
            xs.drop_first(),
        )
    }
}

/// Whether a cell reads `field` in any letter case.
pub fn is_field_header_exec(cell: &str) -> (r: bool)
    ensures
        r == is_field_header(cell@),
{
    if cell.unicode_len() != 5 {
        return false;
    }
    to_ascii_lower(cell.get_char(0)) == 'f' && to_ascii_lower(cell.get_char(1)) == 'i' && to_ascii_lower(
        cell.get_char(2),
    ) == 'e' && to_ascii_lower(cell.get_char(3)) == 'l' && to_ascii_lower(cell.get_char(4)) == 'd'
}

fn row_field_exec(l: &str) -> (r: Option<String>)
    requires
        l@.len() >= 1,
    ensures
        opt_chars(r) == row_field(l@),
{
    let n = l.unicode_len();
    let mut e: usize = 1;
    let ghost rest = l@.skip(1);
    while e < n && l.get_char(e) != '|'
        invariant
            n == l@.len(),
            1 <= e <= n,
            rest == l@.skip(1),
            forall|j: int| 1 <= j < e ==> l@[j] != '|',
        decreases n - e,
    {
        e = e + 1;
    }
    proof {
        crate::text::lemma_first_of(rest, '|', e - 1);
    }
    let cell_raw = l.substring_char(1, e);
    assert(cell_raw@ =~= first_cell(l@));
    let cell = trim(cell_raw);
    let cn = cell.unicode_len();
    if cn > 0 && cell.get_char(0) == '-' {
        return None;
    }
    if cn == 5 {
        if to_ascii_lower(cell.get_char(0)) == 'f' && to_ascii_lower(cell.get_char(1)) == 'i' && to_ascii_lower(
            cell.get_char(2),
        ) == 'e' && to_ascii_lower(cell.get_char(3)) == 'l' && to_ascii_lower(cell.get_char(4)) == 'd' {
            return None;
        }
    }
    extract_backtick(cell)
}

/// The field names of the "Base layer ... required" table of the frontmatter
/// specification, each once.
pub fn parse_base_required_from_md(content: &str) -> (r: Vec<String>)
    ensures
        string_views(r@).to_set() == base_fields(lines_spec(content@), false),
        string_views(r@).no_duplicates(),
        string_views(r@) == dedup_append(seq![], base_field_list(lines_spec(content@), false)),
{
    let ls = lines(content);
    let ghost lv = string_views(ls@);
    let bl = "## Base layer";
    let req = "required";
    let h2 = "## ";
    let bar = "|";
    proof {
        reveal_strlit("## Base layer");
        reveal_strlit("required");
        reveal_strlit("## ");
        reveal_strlit("|");
    }
    assert(bl@ =~= base_layer());
    assert(req@ =~= required_word());
    assert(h2@ =~= seq!['#', '#', ' ']);
    assert(bar@ =~= seq!['|']);
    let mut out: Vec<String> = Vec::new();
    let mut in_section = false;
    let mut i: usize = 0;
    assert(lv.skip(0) =~= lv);
    assert(string_views(out@).to_set() =~= Set::<Seq<char>>::empty());
    assert(string_views(out@) =~= Seq::<Seq<char>>::empty());
    while i < ls.len()
        invariant
            lv == string_views(ls@),
            lv == lines_spec(content@),
            bl@ == base_layer(),
            req@ == required_word(),
            h2@ == seq!['#', '#', ' '],
            bar@ == seq!['|'],
            0 <= i <= ls@.len(),
            string_views(out@).to_set().union(base_fields(lv.skip(i as int), in_section)) == base_fields(lv, false),
            string_views(out@).no_duplicates(),
            dedup_append(string_views(out@), base_field_list(lv.skip(i as int), in_section)) == dedup_append(
                seq![],
                base_field_list(lv, false),
            ),
        decreases ls@.len() - i,
    {
        let line = ls[i].as_str();
        let ghost tail = lv.skip(i as int);
        assert(tail[0] == line@);
        assert(tail.drop_first() =~= lv.skip(i + 1));
        if starts_with_str(line, bl) && find_str(line, req).is_some() {
            in_section = true;
        } else if in_section && starts_with_str(line, h2) {
            assert(string_views(out@).to_set().union(Set::<Seq<char>>::empty()) =~= string_views(out@).to_set());
            return out;
        } else if !in_section {
        } else if starts_with_str(line, bar) {
            match row_field_exec(line) {
                Some(f) => {
                    let mut present = false;
                    let mut k: usize = 0;
                    while k < out.len()
                        invariant
                            0 <= k <= out@.len(),
                            !present ==> forall|j: int| 0 <= j < k ==> out@[j]@ != f@,
                            present ==> string_views(out@).contains(f@),
                        decreases out@.len() - k,
                    {
                        if str_eq(out[k].as_str(), f.as_str()) {
                            present = true;
                            assert(string_views(out@)[k as int] == f@);
                        }
                        k = k + 1;
                    }
                    let ghost before = string_views(out@);
                    assert(present == before.contains(f@)) by {
                        if before.contains(f@) && !present {
                            let j = choose|j: int| 0 <= j < before.len() && before[j] == f@;
                            assert(out@[j]@ == f@);
                        }
                    }
                    if !present {
                        out.push(f);
                        proof {
                            assert(string_views(out@) =~= before.push(f@));
                            assert forall|j: int| 0 <= j < before.len() implies before[j] != f@ by {
                                assert(before[j] == out@[j]@);
                            }
                            before.lemma_push_to_set_commute(f@);
                            assert(string_views(out@).to_set() =~= before.to_set().insert(f@));
                        }
                    } else {
                        assert(before.to_set().insert(f@) =~= before.to_set());
                    }
                    assert(string_views(out@).to_set().union(base_fields(lv.skip(i + 1), true))
                        =~= before.to_set().union(base_fields(tail, true)));
                    let ghost xs = base_field_list(tail, true);
                    assert(xs == seq![f@] + base_field_list(lv.skip(i + 1), true));
                    assert(xs.drop_first() =~= base_field_list(lv.skip(i + 1), true));
                    assert(dedup_append(before, xs) == dedup_append(string_views(out@), base_field_list(lv.skip(i + 1), true)));
                },
                None => {},
            }
        } else {
        }
        i = i + 1;
    }
    assert(lv.skip(i as int) =~= Seq::<Seq<char>>::empty());
    assert(string_views(out@).to_set().union(Set::<Seq<char>>::empty()) =~= string_views(out@).to_set());
    out
}

} // verus!

verus! {

/// Writing back what splitting found rebuilds the file, when the frontmatter
/// was closed by `\n---\n` and does not itself end in a newline.
pub proof fn split_then_write_restores(c: Seq<char>)
    requires
        split_fm_spec(c).0 is Some,
        find_seq(c.skip(4), fm_close(), 0) >= 0,
        !(split_fm_spec(c).0.unwrap().len() > 0 && split_fm_spec(c).0.unwrap().last() == '\n'),
    ensures
        fm_document_spec(split_fm_spec(c).0.unwrap(), split_fm_spec(c).1) == c,
{
    let a = c.skip(4);
    let p = find_seq(a, fm_close(), 0);
    lemma_find_seq_bounds(a, fm_close(), 0);
    let fm = a.take(p);
    let body = a.skip(p + 5);
    assert(a.subrange(p, p + 5) == fm_close());
    assert(c.take(4) == fm_open());
    assert(c =~= fm_open() + fm + fm_close() + body) by {
        assert(a =~= fm + a.subrange(p, p + 5) + body);
        assert(c =~= c.take(4) + a);
    }
    assert(fm_document_spec(fm, body) =~= fm_open() + fm.push('\n') + fm_open() + body);
    assert(fm_open() + fm.push('\n') + fm_open() + body =~= fm_open() + fm + fm_close() + body);
}

/// A Markdown file split into its frontmatter and body.
#[derive(Debug)]
pub struct ParsedFile {
    pub path: String,
    /// The parsed frontmatter; `None` when there is no block or it is not valid YAML.
    pub frontmatter: Option<crate::doc_values::YamlValue>,
    /// The text between the `---` delimiters (delimiters not included).
    pub raw_fm: Option<String>,
    /// Everything after the closing delimiter.
    pub body: String,
}

/// Split the text `content` of the file at `path` into frontmatter and body,
/// and parse the frontmatter.
pub fn parse_file(path: &str, content: &str) -> (r: ParsedFile)
    ensures
        r.path@ == path@,
        (opt_chars(r.raw_fm), r.body@) == split_fm_spec(content@),
        r.frontmatter == match split_fm_spec(content@).0 {
            Some(fm) => crate::doc_values::yaml_parsed(fm),
            None => None,
        },
{
    let (raw_fm, body) = split_frontmatter(content);
    let frontmatter = match &raw_fm {
        Some(s) => crate::doc_values::yaml_parse(s.as_str()),
        None => None,
    };
    ParsedFile { path: path.to_owned(), frontmatter, raw_fm, body }
}

proof fn lemma_find_seq_first(s: Seq<char>, p: Seq<char>, from: int)
    requires
        0 <= from,
    ensures
        forall|q: int|
            from <= q && q + p.len() <= s.len() && (find_seq(s, p, from) == -1 || q < find_seq(s, p, from))
                ==> #[trigger] s.subrange(q, q + p.len()) != p,
    decreases s.len() + 1 - from,
{
    if from + p.len() <= s.len() && s.subrange(from, from + p.len()) != p {
        lemma_find_seq_first(s, p, from + 1);
    }
}

/// Splitting loses nothing: a file without frontmatter is all body, and one
/// with frontmatter is `---\n`, the frontmatter (which holds no `\n---\n`),
/// `\n---\n` and the body, or, with an empty body, `---\n`, the frontmatter
/// and a closing `\n---` at the very end.
pub proof fn split_rebuilds_text(c: Seq<char>)
    ensures
        match split_fm_spec(c) {
            (None, b) => b == c,
            (Some(fm), b) => !contains_seq(fm, fm_close()) && (c == fm_open() + fm + fm_close() + b || (b.len()
                == 0 && c == fm_open() + fm + fm_close_at_end())),
        },
{
    if starts_with_chars(c, fm_open()) {
        let a = c.skip(4);
        assert(c.take(4) == fm_open());
        assert(c =~= fm_open() + a);
        let p = find_seq(a, fm_close(), 0);
        lemma_find_seq_bounds(a, fm_close(), 0);
        lemma_find_seq_first(a, fm_close(), 0);
        if p >= 0 {
            let fm = a.take(p);
            assert(a =~= fm + fm_close() + a.skip(p + 5)) by {
                assert(a.subrange(p, p + 5) == fm_close());
            }
            lemma_find_seq_bounds(fm, fm_close(), 0);
            if find_seq(fm, fm_close(), 0) >= 0 {
                let q = find_seq(fm, fm_close(), 0);
                assert(fm.subrange(q, q + 5) =~= a.subrange(q, q + 5));
                assert(a.subrange(q, q + 5) != fm_close());
            }
            assert(c =~= fm_open() + fm + fm_close() + a.skip(p + 5));
        } else if a.len() >= 4 && a.skip(a.len() - 4) == fm_close_at_end() {
            let fm = a.take(a.len() - 4);
            assert(a =~= fm + fm_close_at_end());
            lemma_find_seq_bounds(fm, fm_close(), 0);
            if find_seq(fm, fm_close(), 0) >= 0 {
                let q = find_seq(fm, fm_close(), 0);
                assert(fm.subrange(q, q + 5) =~= a.subrange(q, q + 5));
                assert(a.subrange(q, q + 5) != fm_close());
            }
            assert(c =~= fm_open() + fm + fm_close_at_end());
        }
    }
}

/// The text of a file with the raw frontmatter `raw_fm` (given a final newline
/// when it lacks one) between `---` lines, then `body`.
pub open spec fn raw_file_text_spec(raw_fm: Seq<char>, body: Seq<char>) -> Seq<char> {
    fm_open() + (if raw_fm.len() > 0 && raw_fm.last() == '\n' {
        raw_fm
    } else {
        raw_fm.push('\n')
    }) + seq!['-', '-', '-', '\n'] + body
}

/// The text written back for a file whose raw frontmatter is kept as typed.
pub fn raw_file_text(raw_fm: &str, body: &str) -> (r: String)
    ensures
        r@ == raw_file_text_spec(raw_fm@, body@),
{
    let mut out = "---\n".to_owned();
    proof {
        reveal_strlit("---\n");
    }
    out.append(raw_fm);
    let n = raw_fm.unicode_len();
    if !(n > 0 && raw_fm.get_char(n - 1) == '\n') {
        push_char(&mut out, '\n');
    }
    out.append("---\n");
    out.append(body);
    assert(out@ =~= raw_file_text_spec(raw_fm@, body@));
    out
}

} // verus!

verus! {

/// The frontmatter block a file is written with: the raw frontmatter, given
/// a final newline when it lacks one.
pub open spec fn fm_block(raw_fm: Seq<char>) -> Seq<char> {
    if raw_fm.len() > 0 && raw_fm.last() == '\n' {
        raw_fm
    } else {
        raw_fm.push('\n')
    }
}

proof fn lemma_find_seq_at(s: Seq<char>, p: Seq<char>, from: int, k: int)
    requires
        0 <= from <= k,
        k + p.len() <= s.len(),
        s.subrange(k, k + p.len()) == p,
        forall|q: int| from <= q < k ==> #[trigger] s.subrange(q, q + p.len()) != p,
    ensures
        find_seq(s, p, from) == k,
    decreases k - from,
{
    if from < k {
        assert(s.subrange(from, from + p.len()) != p);
        lemma_find_seq_at(s, p, from + 1, k);
    }
}

/// Splitting a written file gives back what was written: a file written with
/// the raw frontmatter `raw_fm` and `body` splits into the frontmatter block
/// without its final newline and `body`, as long as the block holds no
/// `\n---\n` of its own.
pub proof fn written_file_splits_back(raw_fm: Seq<char>, body: Seq<char>)
    requires
        !contains_seq(fm_block(raw_fm), fm_close()),
    ensures
        split_fm_spec(raw_file_text_spec(raw_fm, body)) == (Some(fm_block(raw_fm).drop_last()), body),
{
    let fb = fm_block(raw_fm);
    let t = raw_file_text_spec(raw_fm, body);
    let l = fb.len() as int;
    assert(t =~= fm_open() + fb + seq!['-', '-', '-', '\n'] + body);
    assert(t.take(4) =~= fm_open());
    assert(starts_with_chars(t, fm_open()));
    let a = t.skip(4);
    assert(a =~= fb + seq!['-', '-', '-', '\n'] + body);
    assert(fb[l - 1] == '\n');
    assert(a.subrange(l - 1, l + 4) =~= fm_close());
    lemma_find_seq_first(fb, fm_close(), 0);
    lemma_find_seq_bounds(fb, fm_close(), 0);
    assert(fm_close().len() == 5);
    assert forall|q: int| 0 <= q < l - 1 implies #[trigger] a.subrange(q, q + 5) != fm_close() by {
        if q + 5 <= l {
            assert(a.subrange(q, q + 5) =~= fb.subrange(q, q + 5));
            assert(fb.subrange(q, q + fm_close().len()) != fm_close());
        } else {
            let w = a.subrange(q, q + 5);
            assert(w[l - 1 - q] == a[l - 1]);
            assert(a[l - 1] == '\n');
            assert(fm_close()[l - 1 - q] == '-');
        }
    }
    lemma_find_seq_at(a, fm_close(), 0, l - 1);
    assert(a.take(l - 1) =~= fb.drop_last());
    assert(a.skip(l + 4) =~= body);
}

} // verus!
