//! Fenced code block tracking (CommonMark-style fences of backticks or tildes).
//!
//! Opening fence: three or more identical fence bytes after optional leading
//! spaces; a backtick opener's info string may not itself hold a backtick.
//! Closing fence: the opener's byte, at least as many of them, then only
//! whitespace. A tilde line never closes a backtick fence, and vice versa.

use vstd::prelude::*;
use vstd::string::*;
use crate::text::{chars_of, has_byte, has_byte_exec, rtrim_end, rtrim_end_exec, run_end, run_end_exec, ws_only, ws_only_exec};

verus! {

/// Which byte opened the current fence.
#[derive(Debug, Clone, Copy, PartialEq, Eq)]
pub enum FenceMarker {
    Backtick,
    Tilde,
}

impl FenceMarker {
    pub open spec fn spec_byte(self) -> u8 {
        match self {
            FenceMarker::Backtick => 96u8,
            FenceMarker::Tilde => 126u8,
        }
    }
}

/// Per-file fence state. Start each file from `FenceState::default()`.
#[derive(Debug)]
pub struct FenceState {
    pub in_block: bool,
    pub marker: Option<FenceMarker>,
    pub marker_len: usize,
    /// Leading-space indent of the opening fence line.
    pub marker_indent: usize,
}

/// The state outside any fence.
pub open spec fn fence_closed() -> FenceState {
    FenceState { in_block: false, marker: None, marker_len: 0, marker_indent: 0 }
}

/// The state after observing the line whose bytes are `line`.
pub open spec fn fence_step(s: FenceState, line: Seq<u8>) -> FenceState {
    let end = rtrim_end(line, line.len() as int, 13u8);
    let ind = run_end(line, 0, end, 32u8);
    if s.in_block {
        match s.marker {
            None => s,
            Some(m) => {
                let r = run_end(line, ind, end, m.spec_byte());
                if r - ind >= s.marker_len && ws_only(chars_of(line.subrange(r, end))) {
                    fence_closed()
                } else {
                    s
                }
            },
        }
    } else if ind < end && (line[ind] == 96u8 || line[ind] == 126u8) {
        let c = line[ind];
        let r = run_end(line, ind, end, c);
        if r - ind < 3 {
            s
        } else if c == 96u8 && has_byte(line, r, end, 96u8) {
            s
        } else {
            FenceState {
                in_block: true,
                marker: Some(if c == 96u8 { FenceMarker::Backtick } else { FenceMarker::Tilde }),
                marker_len: (r - ind) as usize,
                marker_indent: ind as usize,
            }
        }
    } else {
        s
    }
}

impl Default for FenceState {
    fn default() -> (r: Self)
        ensures
            r == fence_closed(),
    {
        FenceState { in_block: false, marker: None, marker_len: 0, marker_indent: 0 }
    }
}

impl FenceState {
    /// Update the state by observing `line` (a trailing `\r` is ignored, so CRLF
    /// and LF files behave alike). Call it for every line, delimiters included.
    pub fn observe_line(&mut self, line: &str)
        ensures
            *final(self) == fence_step(*old(self), line.spec_bytes()),
    {
        let b = line.as_bytes();
        let end = rtrim_end_exec(b, b.len(), 13u8);
        let ind = run_end_exec(b, 0, end, 32u8);
        if self.in_block {
            let m = match self.marker {
                Some(m) => m,
                None => {
                    return;
                },
            };
            let c: u8 = match m {
                FenceMarker::Backtick => 96u8,
                FenceMarker::Tilde => 126u8,
            };
            let r = run_end_exec(b, ind, end, c);
            proof {
                crate::text::lemma_rtrim_end_bounds(b@, b@.len() as int, 13u8);
                crate::text::lemma_run_end_bounds(b@, 0, end as int, 32u8);
                crate::text::lemma_run_end_bounds(b@, ind as int, end as int, c);
                if r > 0 {
                    assert(crate::text::is_ascii_byte(b@[r - 1]));
                }
                if end < b@.len() {
                    assert(crate::text::is_ascii_byte(b@[end as int]));
                }
            }
            let tail = crate::text::substr(line, r, end);
            if r - ind >= self.marker_len && ws_only_exec(tail) {
                self.in_block = false;
                self.marker = None;
                self.marker_len = 0;
                self.marker_indent = 0;
            }
        } else {
            if ind >= end {
                return;
            }
            let c = b[ind];
            if c != 96u8 && c != 126u8 {
                return;
            }
            let r = run_end_exec(b, ind, end, c);
            if r - ind < 3 {
                return;
            }
            if c == 96u8 && has_byte_exec(b, r, end, 96u8) {
                return;
            }
            self.in_block = true;
            self.marker = Some(if c == 96u8 { FenceMarker::Backtick } else { FenceMarker::Tilde });
            self.marker_len = r - ind;
            self.marker_indent = ind;
        }
    }

    /// Whether the last observed line left us inside a fenced code block.
    pub fn in_code_block(&self) -> (r: bool)
        ensures
            r == self.in_block,
    {
        self.in_block
    }
}

} // verus!

verus! {

/// A bare fence line (spaces, the fence bytes, then only blanks) that opens
/// a fence also closes it: the same line seen twice leaves no fence open.
pub proof fn fence_closes_with_its_own_line(l: Seq<u8>)
    requires
        fence_step(fence_closed(), l).in_block,
        ({
            let end = rtrim_end(l, l.len() as int, 13u8);
            let ind = run_end(l, 0, end, 32u8);
            ws_only(chars_of(l.subrange(run_end(l, ind, end, l[ind]), end)))
        }),
    ensures
        fence_step(fence_step(fence_closed(), l), l) == fence_closed(),
{
}

/// Inside a fence, a line whose first non-space byte is not the fence's own
/// byte changes nothing: tildes never close a backtick fence and vice versa.
pub proof fn other_marker_never_closes(s: FenceState, l: Seq<u8>, m: FenceMarker)
    requires
        s.in_block,
        s.marker == Some(m),
        s.marker_len >= 1,
        ({
            let end = rtrim_end(l, l.len() as int, 13u8);
            let ind = run_end(l, 0, end, 32u8);
            ind < end && l[ind] != m.spec_byte()
        }),
    ensures
        fence_step(s, l) == s,
{
}

/// A state that came from observing lines: a fence is open only with its
/// marker known and at least three of them.
pub open spec fn fence_wf(s: FenceState) -> bool {
    s.in_block ==> s.marker is Some && s.marker_len >= 3
}

/// The text of a line a fence looks at: without its trailing carriage
/// returns and its leading spaces.
pub open spec fn fence_text(line: Seq<u8>) -> Seq<u8> {
    let end = rtrim_end(line, line.len() as int, 13u8);
    let ind = run_end(line, 0, end, 32u8);
    line.subrange(ind, end)
}

proof fn lemma_rtrim_bounds(b: Seq<u8>, end: int, c: u8)
    requires
        0 <= end <= b.len(),
    ensures
        0 <= rtrim_end(b, end, c) <= end,
    decreases end,
{
    if 0 < end && b[end - 1] == c {
        lemma_rtrim_bounds(b, end - 1, c);
    }
}

proof fn lemma_run_shift(b: Seq<u8>, from: int, end: int, c: u8)
    requires
        0 <= from <= end <= b.len(),
    ensures
        run_end(b, from, end, c) - from == run_end(b.subrange(from, end), 0, end - from, c),
    decreases end - from,
{
    let t = b.subrange(from, end);
    if from < end && b[from] == c {
        lemma_run_shift(b, from + 1, end, c);
        lemma_run_drop(t, c);
        assert(t.drop_first() =~= b.subrange(from + 1, end));
    }
}

proof fn lemma_run_drop(t: Seq<u8>, c: u8)
    requires
        t.len() > 0,
        t[0] == c,
    ensures
        run_end(t, 0, t.len() as int, c) == 1 + run_end(t.drop_first(), 0, t.len() - 1, c),
{
    lemma_run_drop_at(t, c, 1);
}

proof fn lemma_run_drop_at(t: Seq<u8>, c: u8, k: int)
    requires
        1 <= k <= t.len(),
        forall|i: int| 0 <= i < k ==> t[i] == c,
    ensures
        run_end(t, 0, t.len() as int, c) == run_end(t, k, t.len() as int, c),
        run_end(t, k, t.len() as int, c) == 1 + run_end(t.drop_first(), k - 1, t.len() - 1, c),
    decreases t.len() - k,
{
    lemma_run_prefix(t, c, k);
    lemma_run_tail(t, c, k);
}

proof fn lemma_run_prefix(t: Seq<u8>, c: u8, k: int)
    requires
        0 <= k <= t.len(),
        forall|i: int| 0 <= i < k ==> t[i] == c,
    ensures
        run_end(t, 0, t.len() as int, c) == run_end(t, k, t.len() as int, c),
    decreases k,
{
    if k > 0 {
        lemma_run_prefix(t, c, k - 1);
    }
}

proof fn lemma_run_tail(t: Seq<u8>, c: u8, k: int)
    requires
        1 <= k <= t.len(),
    ensures
        run_end(t, k, t.len() as int, c) == 1 + run_end(t.drop_first(), k - 1, t.len() - 1, c),
    decreases t.len() - k,
{
    if k < t.len() && t[k] == c {
        lemma_run_tail(t, c, k + 1);
    }
}

/// How a line moves the fence state, read on the line's text `t` (trailing
/// carriage returns and leading spaces removed): inside a fence opened by
/// `k` copies of a byte, the line closes it exactly when `t` starts with at
/// least `k` of that byte followed by nothing but whitespace; outside a
/// fence, the line opens one exactly when `t` starts with at least three `~`,
/// or with at least three backticks and no backtick after them. The state
/// stays well formed.
pub proof fn fence_rule(s: FenceState, line: Seq<u8>)
    requires
        fence_wf(s),
        line.len() <= usize::MAX,
    ensures
        fence_wf(fence_step(s, line)),
        ({
            let t = fence_text(line);
            s.in_block ==> ({
                let c = s.marker.unwrap().spec_byte();
                let r = run_end(t, 0, t.len() as int, c);
                fence_step(s, line).in_block == !(r >= s.marker_len && ws_only(chars_of(t.subrange(r, t.len() as int))))
            })
        }),
        ({
            let t = fence_text(line);
            !s.in_block ==> fence_step(s, line).in_block == (t.len() > 0 && ((t[0] == 126u8 && run_end(
                t,
                0,
                t.len() as int,
                126u8,
            ) >= 3) || (t[0] == 96u8 && run_end(t, 0, t.len() as int, 96u8) >= 3 && !has_byte(
                t,
                run_end(t, 0, t.len() as int, 96u8),
                t.len() as int,
                96u8,
            ))))
        }),
{
    let end = rtrim_end(line, line.len() as int, 13u8);
    lemma_rtrim_bounds(line, line.len() as int, 13u8);
    crate::text::lemma_run_end_bounds(line, 0, end, 32u8);
    let ind = run_end(line, 0, end, 32u8);
    let t = line.subrange(ind, end);
    assert(t == fence_text(line));
    if s.in_block {
        let c = s.marker.unwrap().spec_byte();
        crate::text::lemma_run_end_bounds(line, ind, end, c);
        lemma_run_shift(line, ind, end, c);
        let r = run_end(line, ind, end, c);
        let rt = run_end(t, 0, t.len() as int, c);
        assert(rt == r - ind);
        assert(t.subrange(rt, t.len() as int) =~= line.subrange(r, end));
    } else if ind < end && (line[ind] == 96u8 || line[ind] == 126u8) {
        let c = line[ind];
        crate::text::lemma_run_end_bounds(line, ind, end, c);
        lemma_run_shift(line, ind, end, c);
        let r = run_end(line, ind, end, c);
        let rt = run_end(t, 0, t.len() as int, c);
        assert(t[0] == c);
        assert(has_byte(line, r, end, 96u8) == has_byte(t, rt, t.len() as int, 96u8)) by {
            if has_byte(line, r, end, 96u8) {
                let i = choose|i: int| r <= i < end && line[i] == 96u8;
                assert(t[i - ind] == line[i]);
            }
            if has_byte(t, rt, t.len() as int, 96u8) {
                let i = choose|i: int| rt <= i < t.len() && t[i] == 96u8;
                assert(t[i] == line[i + ind]);
            }
        }
        if c == 96u8 {
            crate::text::lemma_run_end_bounds(t, 0, t.len() as int, 126u8);
        } else {
            crate::text::lemma_run_end_bounds(t, 0, t.len() as int, 96u8);
        }
    } else {
        if ind < end {
            assert(t[0] == line[ind]);
        }
    }
}

} // verus!
