//! Acknowledged broken references, from the acked file.
//!
//! Lines of the form `<file>:<line>` name one broken reference that may stay
//! broken (`AckedRefs`); the other lines are gitignore-style patterns whose
//! matching files have their broken references left out of validation
//! output (`AckedPatterns`). Reading and appending the file is the caller's
//! business.

use vstd::prelude::*;
use vstd::string::*;
use crate::fmt::{dec, push_decimal};
use crate::text::{lemma_lead_ws_bound, lemma_trail_ws_le, lines, lines_spec, push_char, string_views, trim, trim_spec};
use crate::transaction::crfind;

verus! {

broadcast use vstd::seq::group_seq_axioms;

// ───────────────────────── numbers ─────────────────────────

pub open spec fn is_digit(c: char) -> bool {
    '0' <= c && c <= '9'
}

pub open spec fn all_digits(s: Seq<char>) -> bool {
    forall|i: int| 0 <= i < s.len() ==> is_digit(#[trigger] s[i])
}

/// The value of a run of decimal digits.
pub open spec fn digits_value(s: Seq<char>) -> int
    decreases s.len(),
{
    if s.len() == 0 {
        0
    } else {
        digits_value(s.drop_last()) * 10 + (s.last() as int - '0' as int)
    }
}

/// What `usize::from_str` accepts: an optional `+`, then one or more decimal
/// digits whose value fits in `usize`.
pub open spec fn parse_usize_spec(s: Seq<char>) -> Option<int> {
    let body = if s.len() > 0 && s[0] == '+' {
        s.skip(1)
    } else {
        s
    };
    if body.len() > 0 && all_digits(body) && digits_value(body) <= usize::MAX {
        Some(digits_value(body))
    } else {
        None
    }
}

proof fn lemma_digits_grow(s: Seq<char>, k: int)
    requires
        0 <= k <= s.len(),
        all_digits(s),
    ensures
        0 <= digits_value(s.take(k)) <= digits_value(s),
    decreases s.len() - k,
{
    if k < s.len() {
        lemma_digits_grow(s, k + 1);
        let t = s.take(k + 1);
        assert(t.drop_last() =~= s.take(k));
        assert(t.last() == s[k]);
        assert(is_digit(s[k]));
        lemma_digits_nonneg(s.take(k));
    } else {
        assert(s.take(k) =~= s);
        lemma_digits_nonneg(s);
    }
}

proof fn lemma_digits_nonneg(s: Seq<char>)
    requires
        all_digits(s),
    ensures
        digits_value(s) >= 0,
    decreases s.len(),
{
    if s.len() > 0 {
        assert(all_digits(s.drop_last())) by {
            assert forall|i: int| 0 <= i < s.drop_last().len() implies is_digit(#[trigger] s.drop_last()[i]) by {
                assert(s.drop_last()[i] == s[i]);
            }
        }
        lemma_digits_nonneg(s.drop_last());
        assert(is_digit(s[s.len() - 1]));
    }
}

/// Parse a decimal `usize` as `usize::from_str` does.
pub fn parse_usize(s: &str) -> (r: Option<usize>)
    ensures
        match r {
            Some(n) => parse_usize_spec(s@) == Some(n as int),
            None => parse_usize_spec(s@) is None,
        },
{
    let n = s.unicode_len();
    let start: usize = if n > 0 && s.get_char(0) == '+' {
        1
    } else {
        0
    };
    let ghost body = s@.skip(start as int);
    assert(body =~= (if s@.len() > 0 && s@[0] == '+' {
        s@.skip(1)
    } else {
        s@
    }));
    if start >= n {
        return None;
    }
    let mut v: usize = 0;
    let mut i: usize = start;
    assert(body.take(0) =~= Seq::<char>::empty());
    while i < n
        invariant
            n == s@.len(),
            start <= i <= n,
            body == s@.skip(start as int),
            body == (if s@.len() > 0 && s@[0] == '+' {
                s@.skip(1)
            } else {
                s@
            }),
            forall|j: int| 0 <= j < i - start ==> is_digit(#[trigger] body[j]),
            v as int == digits_value(body.take(i - start)),
        decreases n - i,
    {
        let c = s.get_char(i);
        if !('0' <= c && c <= '9') {
            assert(!is_digit(body[i - start]));
            return None;
        }
        let d = (c as u32 - '0' as u32) as usize;
        let ghost t = body.take(i - start + 1);
        assert(t.drop_last() =~= body.take(i - start));
        assert(t.last() == c);
        if v > (usize::MAX - d) / 10 {
            proof {
                assert(v * 10 + d > usize::MAX) by (nonlinear_arith)
                    requires
                        v > (usize::MAX - d) / 10,
                        d <= 9,
                ;
                assert(digits_value(t) == v * 10 + d);
                if all_digits(body) {
                    lemma_digits_grow(body, i - start + 1);
                }
            }
            return None;
        }
        v = v * 10 + d;
        i = i + 1;
    }
    assert(body.take(n - start) =~= body);
    Some(v)
}

} // verus!

verus! {

// ───────────────────────── entries ─────────────────────────

/// The `file:line` entry of one line of the acked file: the trimmed line split
/// at its last `:`, with a non-empty file part and a `usize` after the colon.
/// Blank lines, comments (`#`) and other patterns give nothing.
pub open spec fn parse_ref_line_spec(line: Seq<char>) -> Option<(Seq<char>, int)> {
    let t = trim_spec(line);
    if t.len() == 0 || t[0] == '#' {
        None
    } else {
        let c = crfind(t, ':');
        if c < 0 {
            None
        } else {
            match parse_usize_spec(t.skip(c + 1)) {
                None => None,
                Some(n) => if c == 0 {
                    None
                } else {
                    Some((t.take(c), n))
                },
            }
        }
    }
}

/// Parse a `file:line` entry from one line of the acked file.
pub fn parse_ref_line(line: &str) -> (r: Option<(String, usize)>)
    ensures
        match r {
            Some((f, n)) => parse_ref_line_spec(line@) == Some((f@, n as int)),
            None => parse_ref_line_spec(line@) is None,
        },
{
    let t = trim(line);
    let n = t.unicode_len();
    if n == 0 || t.get_char(0) == '#' {
        return None;
    }
    let mut j: usize = n;
    assert(t@.take(n as int) =~= t@);
    while j > 0 && t.get_char(j - 1) != ':'
        invariant
            n == t@.len(),
            j <= n,
            crfind(t@, ':') == crfind(t@.take(j as int), ':'),
        decreases j,
    {
        assert(t@.take(j as int).drop_last() =~= t@.take(j - 1));
        j = j - 1;
    }
    if j == 0 {
        return None;
    }
    let c = j - 1;
    assert(crfind(t@.take(j as int), ':') == c);
    let tail = t.substring_char(c + 1, n);
    assert(tail@ =~= t@.skip(c + 1));
    let num = match parse_usize(tail) {
        Some(v) => v,
        None => {
            return None;
        },
    };
    if c == 0 {
        return None;
    }
    let file = t.substring_char(0, c).to_owned();
    assert(file@ =~= t@.take(c as int));
    Some((file, num))
}

/// The set of `(file, line)` entries held by `v`.
pub open spec fn entry_set(v: Seq<(String, usize)>) -> Set<(Seq<char>, usize)> {
    Set::new(|p: (Seq<char>, usize)| exists|i: int| 0 <= i < v.len() && (#[trigger] v[i]).0@ == p.0 && v[i].1 == p.1)
}

/// Broken references that may stay broken: a set of `(file, line)` entries.
pub struct AckedRefs {
    entries: Vec<(String, usize)>,
}

impl View for AckedRefs {
    type V = Set<(Seq<char>, usize)>;

    closed spec fn view(&self) -> Set<(Seq<char>, usize)> {
        entry_set(self.entries@)
    }
}

/// The entries of the lines of `content`, in order.
pub open spec fn content_entries(ls: Seq<Seq<char>>) -> Set<(Seq<char>, usize)>
    decreases ls.len(),
{
    if ls.len() == 0 {
        Set::empty()
    } else {
        match parse_ref_line_spec(ls.last()) {
            Some((f, n)) => content_entries(ls.drop_last()).insert((f, n as usize)),
            None => content_entries(ls.drop_last()),
        }
    }
}

impl AckedRefs {
    /// No entries.
    pub fn empty() -> (r: Self)
        ensures
            r@ == Set::<(Seq<char>, usize)>::empty(),
    {
        let r = AckedRefs { entries: Vec::new() };
        assert(r@ =~= Set::<(Seq<char>, usize)>::empty());
        r
    }

    /// The entries of an acked file's content: one per `file:line` line.
    pub fn from_content(content: &str) -> (r: Self)
        ensures
            r@ == content_entries(lines_spec(content@)),
    {
        let ls = lines(content);
        let ghost lv = string_views(ls@);
        let mut r = AckedRefs::empty();
        let mut i: usize = 0;
        assert(lv.take(0) =~= Seq::<Seq<char>>::empty());
        while i < ls.len()
            invariant
                lv == string_views(ls@),
                lv == lines_spec(content@),
                0 <= i <= ls@.len(),
                r@ == content_entries(lv.take(i as int)),
            decreases ls@.len() - i,
        {
            assert(lv.take(i + 1).drop_last() =~= lv.take(i as int));
            assert(lv.take(i + 1).last() == ls@[i as int]@);
            match parse_ref_line(ls[i].as_str()) {
                Some((f, n)) => {
                    r.add(f.as_str(), n);
                },
                None => {},
            }
            i = i + 1;
        }
        assert(lv.take(i as int) =~= lv);
        r
    }

    /// Whether `(file, line)` is acknowledged.
    pub fn contains(&self, file: &str, line: usize) -> (r: bool)
        ensures
            r == self@.contains((file@, line)),
    {
        let mut i: usize = 0;
        while i < self.entries.len()
            invariant
                0 <= i <= self.entries@.len(),
                forall|j: int| 0 <= j < i ==> !((#[trigger] self.entries@[j]).0@ == file@ && self.entries@[j].1 == line),
            decreases self.entries@.len() - i,
        {
            let e = &self.entries[i];
            if e.1 == line && e.0.as_str().unicode_len() == file.unicode_len() && crate::text::str_eq(e.0.as_str(), file) {
                assert(entry_set(self.entries@).contains((file@, line)));
                return true;
            }
            i = i + 1;
        }
        assert(!entry_set(self.entries@).contains((file@, line)));
        false
    }

    /// Acknowledge `(file, line)`.
    pub fn add(&mut self, file: &str, line: usize)
        ensures
            final(self)@ == old(self)@.insert((file@, line)),
    {
        if !self.contains(file, line) {
            let ghost before = self.entries@;
            self.entries.push((file.to_owned(), line));
            assert forall|p: (Seq<char>, usize)| entry_set(self.entries@).contains(p) == entry_set(before).insert((file@, line)).contains(p) by {
                if entry_set(before).contains(p) {
                    let k = choose|k: int| 0 <= k < before.len() && (#[trigger] before[k]).0@ == p.0 && before[k].1 == p.1;
                    assert(self.entries@[k] == before[k]);
                }
                if entry_set(self.entries@).contains(p) {
                    let k = choose|k: int| 0 <= k < self.entries@.len() && (#[trigger] self.entries@[k]).0@ == p.0 && self.entries@[k].1 == p.1;
                    if k < before.len() {
                        assert(self.entries@[k] == before[k]);
                    }
                }
                if p == (file@, line) {
                    assert(self.entries@[before.len() as int].0@ == file@);
                }
            }
            assert(entry_set(self.entries@) =~= entry_set(before).insert((file@, line)));
        } else {
            assert(self@.insert((file@, line)) =~= self@);
        }
    }

    /// The text to append to the acked file for `refs`: one `file:line` line
    /// for each ref not acknowledged yet (empty when there is none).
    pub fn new_entries_text(&self, refs: &[(String, usize)]) -> (r: String)
        ensures
            r@ == new_entries_spec(self@, refs@),
    {
        let mut out = String::new();
        let mut i: usize = 0;
        assert(refs@.take(0) =~= Seq::<(String, usize)>::empty());
        while i < refs.len()
            invariant
                0 <= i <= refs@.len(),
                out@ == new_entries_spec(self@, refs@.take(i as int)),
            decreases refs@.len() - i,
        {
            assert(refs@.take(i + 1).drop_last() =~= refs@.take(i as int));
            let (f, l) = &refs[i];
            if !self.contains(f.as_str(), *l) {
                out.append(f.as_str());
                push_char(&mut out, ':');
                push_decimal(&mut out, *l);
                push_char(&mut out, '\n');
            }
            i = i + 1;
        }
        assert(refs@.take(i as int) =~= refs@);
        out
    }
}

/// `file:line` lines, each ended by `\n`, for the refs not in `known`.
pub open spec fn new_entries_spec(known: Set<(Seq<char>, usize)>, refs: Seq<(String, usize)>) -> Seq<char>
    decreases refs.len(),
{
    if refs.len() == 0 {
        seq![]
    } else {
        let prev = new_entries_spec(known, refs.drop_last());
        let (f, l) = refs.last();
        if known.contains((f@, l)) {
            prev
        } else {
            prev + f@ + seq![':'] + dec(l as nat) + seq!['\n']
        }
    }
}

/// Acknowledging an entry makes it acknowledged and leaves every other entry as it was.
pub proof fn add_then_contains(before: Set<(Seq<char>, usize)>, file: Seq<char>, line: usize, other: (Seq<char>, usize))
    ensures
        before.insert((file, line)).contains((file, line)),
        other != (file, line) ==> (before.insert((file, line)).contains(other) == before.contains(other)),
{
}

} // verus!

verus! {

proof fn lemma_digit_char(d: nat)
    requires
        d < 10,
    ensures
        is_digit(crate::fmt::digit_char(d)),
        crate::fmt::digit_char(d) as int - '0' as int == d,
        crate::fmt::digit_char(d) != ':',
        crate::fmt::digit_char(d) != '+',
        !crate::text::is_ws(crate::fmt::digit_char(d)),
{
}

proof fn lemma_dec_digits(n: nat)
    ensures
        dec(n).len() > 0,
        all_digits(dec(n)),
        digits_value(dec(n)) == n,
        dec(n)[0] != '+',
        forall|i: int| 0 <= i < dec(n).len() ==> #[trigger] dec(n)[i] != ':' && !crate::text::is_ws(dec(n)[i]),
    decreases n,
{
    if n >= 10 {
        lemma_dec_digits(n / 10);
        lemma_digit_char(n % 10);
        let d = dec(n);
        let c = crate::fmt::digit_char(n % 10);
        assert(d == dec(n / 10) + seq![c]);
        assert(d.drop_last() =~= dec(n / 10));
        assert(d.last() == c);
        assert(d[0] == dec(n / 10)[0]);
        assert forall|i: int| 0 <= i < d.len() implies is_digit(#[trigger] d[i]) by {
            if i < d.len() - 1 {
                assert(d[i] == dec(n / 10)[i]);
            }
        }
        assert forall|i: int| 0 <= i < d.len() implies #[trigger] d[i] != ':' && !crate::text::is_ws(d[i]) by {
            if i < d.len() - 1 {
                assert(d[i] == dec(n / 10)[i]);
            }
        }
        assert(digits_value(d) == digits_value(dec(n / 10)) * 10 + (c as int - '0' as int));
        assert((n / 10) * 10 + n % 10 == n);
    } else {
        lemma_digit_char(n);
        let d = dec(n);
        assert(d == seq![crate::fmt::digit_char(n)]);
        assert(d.drop_last() =~= Seq::<char>::empty());
        assert(digits_value(d) == digits_value(Seq::<char>::empty()) * 10 + (d.last() as int - '0' as int));
    }
}

proof fn lemma_crfind_last_colon(x: Seq<char>, d: Seq<char>)
    requires
        forall|i: int| 0 <= i < d.len() ==> #[trigger] d[i] != ':',
    ensures
        crfind(x + seq![':'] + d, ':') == x.len(),
    decreases d.len(),
{
    let t = x + seq![':'] + d;
    if d.len() == 0 {
        assert(t.last() == ':');
    } else {
        assert(t.last() == d.last());
        assert(t.drop_last() =~= x + seq![':'] + d.drop_last());
        lemma_crfind_last_colon(x, d.drop_last());
    }
}

proof fn lemma_trim_id(t: Seq<char>)
    requires
        t.len() > 0,
        !crate::text::is_ws(t[0]),
        !crate::text::is_ws(t.last()),
    ensures
        trim_spec(t) == t,
{
    assert(crate::text::lead_ws(t) == 0);
    assert(t.skip(0) =~= t);
    assert(crate::text::trail_ws(t) == 0);
    assert(t.take(t.len() as int) =~= t);
}

/// An entry written as `file:line` reads back as the same entry, for a file
/// name that starts with neither whitespace nor `#`.
pub proof fn written_entry_reads_back(f: Seq<char>, line: usize)
    requires
        f.len() > 0,
        !crate::text::is_ws(f[0]),
        f[0] != '#',
    ensures
        parse_ref_line_spec(f + seq![':'] + dec(line as nat)) == Some((f, line as int)),
{
    let d = dec(line as nat);
    lemma_dec_digits(line as nat);
    let t = f + seq![':'] + d;
    assert(t[0] == f[0]);
    assert(t.last() == d.last());
    assert(d.last() == d[d.len() - 1]);
    lemma_trim_id(t);
    lemma_crfind_last_colon(f, d);
    assert(t.skip(f.len() + 1 as int) =~= d);
    assert(d.skip(0) =~= d);
    assert(parse_usize_spec(d) == Some(line as int));
    assert(t.take(f.len() as int) =~= f);
}

// ───────────────────────── gitignore-style patterns ─────────────────────────

/// `s` without the byte-order marks it starts with.
pub open spec fn strip_bom_spec(s: Seq<char>) -> Seq<char>
    decreases s.len(),
{
    if s.len() > 0 && s[0] == '\u{feff}' {
        strip_bom_spec(s.drop_first())
    } else {
        s
    }
}

/// The lines of an acked file, the first without leading byte-order marks.
pub open spec fn pattern_lines(content: Seq<char>) -> Seq<Seq<char>> {
    let ls = lines_spec(content);
    if ls.len() > 0 {
        ls.update(0, strip_bom_spec(ls[0]))
    } else {
        ls
    }
}

fn strip_boms(s: &str) -> (r: String)
    ensures
        r@ == strip_bom_spec(s@),
{
    let n = s.unicode_len();
    let mut i: usize = 0;
    assert(s@.skip(0) =~= s@);
    while i < n && s.get_char(i) == '\u{feff}'
        invariant
            n == s@.len(),
            i <= n,
            strip_bom_spec(s@.skip(i as int)) == strip_bom_spec(s@),
        decreases n - i,
    {
        assert(s@.skip(i as int).drop_first() =~= s@.skip(i + 1));
        i = i + 1;
    }
    assert(s@.skip(i as int).len() == 0 || s@.skip(i as int)[0] != '\u{feff}');
    let r = s.substring_char(i, n);
    assert(r@ =~= s@.skip(i as int));
    r.to_owned()
}

/// A relative path with no empty component: no leading `/` and no `//`.
pub open spec fn relative_plain(p: Seq<char>) -> bool {
    &&& (p.len() == 0 || p[0] != '/')
    &&& forall|i: int| 0 <= i < p.len() - 1 ==> !(p[i] == '/' && #[trigger] p[i + 1] == '/')
}

/// What an `ignore::gitignore::Gitignore` rooted at `root`, built from the
/// lines `lines`, answers for the file `path` with
/// `matched_path_or_any_parents(path, false).is_ignore()`; `None` where it
/// does not build.
pub uninterp spec fn gitignore_answer(root: Seq<char>, lines: Seq<Seq<char>>, path: Seq<char>) -> Option<bool>;

/// Builds a `Gitignore` from `lines` with `GitignoreBuilder::add_line` and asks
/// it about `path`; the answer is named `gitignore_answer`. The matcher
/// strips a leading `./`, then the root's text and one `/`, and panics when
/// what is left still starts with `/`; a relative path without an empty
/// component (`//`) never does.
#[verifier::external_body]
fn gitignore_match(root: &str, lines: &Vec<String>, path: &str) -> (r: Option<bool>)
    requires
        relative_plain(path@),
    ensures
        r == gitignore_answer(root@, string_views(lines@), path@),
{
    let mut builder = ignore::gitignore::GitignoreBuilder::new(root);
    for l in lines {
        let _ = builder.add_line(None, l);
    }
    let gi = builder.build().ok()?;
    Some(gi.matched_path_or_any_parents(std::path::Path::new(path), false).is_ignore())
}

/// The patterns of the acked file (none when there is no file), for the
/// workspace at `root`.
pub struct AckedPatterns {
    root: String,
    lines: Option<Vec<String>>,
}

impl AckedPatterns {
    pub closed spec fn root_view(&self) -> Seq<char> {
        self.root@
    }

    /// The file's lines; `None` when there is no file.
    pub closed spec fn lines_view(&self) -> Option<Seq<Seq<char>>> {
        match self.lines {
            Some(ls) => Some(string_views(ls@)),
            None => None,
        }
    }

    /// No acked file: nothing is acknowledged.
    pub fn absent(root: &str) -> (r: Self)
        ensures
            r.root_view() == root@,
            r.lines_view() is None,
    {
        AckedPatterns { root: root.to_owned(), lines: None }
    }

    /// The patterns of an acked file whose text is `content`; byte-order
    /// marks at the start of the first line are dropped, as git does.
    pub fn from_content(root: &str, content: &str) -> (r: Self)
        ensures
            r.root_view() == root@,
            r.lines_view() == Some(pattern_lines(content@)),
    {
        let mut ls = lines(content);
        if ls.len() > 0 {
            let first = strip_boms(ls[0].as_str());
            let ghost before = string_views(ls@);
            ls.set(0, first);
            assert(string_views(ls@) =~= before.update(0, strip_bom_spec(before[0])));
        }
        AckedPatterns { root: root.to_owned(), lines: Some(ls) }
    }

    /// Whether the broken references of the file `source_canonical` are
    /// acknowledged: a pattern matches it or one of its parent folders.
    /// `source_canonical` is relative to the workspace root, with no empty
    /// component.
    pub fn is_acked(&self, source_canonical: &str) -> (r: bool)
        requires
            relative_plain(source_canonical@),
        ensures
            r == match self.lines_view() {
                None => false,
                Some(ls) => gitignore_answer(self.root_view(), ls, source_canonical@) == Some(true),
            },
    {
        match &self.lines {
            None => false,
            Some(ls) => match gitignore_match(self.root.as_str(), ls, source_canonical) {
                Some(b) => b,
                None => false,
            },
        }
    }
}

} // verus!
