//! The course of `apply`: after the checks before any change, the staging
//! area and the lock are set up, the plan's operations run in order, and the
//! reference rewrites are planned, staged, validated and committed. Each
//! outside step reports back, and the next step, the lines to print and the
//! exit status follow from what it reported. A failed operation stops the run
//! with the count of the operations that completed.

use vstd::prelude::*;
use vstd::string::*;
use crate::fmt::{dec, push_decimal};
use crate::plan::{Op, Plan};
use crate::plan_wizard::{op_view, op_views, OpView};
use crate::text::string_views;
use crate::post_apply_scan::{
    all_hits, count_matches, count_occurrences, ends_with_md_chars, format_plain_text_warning, full_lines_text,
    hit_le, hit_lines_text, hit_view, hit_views, occurrence_line, partial_segments_spec, plain_text_hits, warning_footer,
    warning_header, warning_spec, HitView, PlainTextHit,
};

verus! {

broadcast use vstd::seq::group_seq_axioms;

/// Where a run of `apply` stands.
#[derive(Debug)]
pub enum ApplyState {
    /// Waiting for the checks before any change.
    Preflight,
    /// Waiting to learn whether the workspace is initialized.
    CheckInit,
    /// Waiting for the lock.
    Locking,
    /// Waiting for the staging area.
    Staging,
    /// Waiting for operation `next` (the operations before it completed).
    Running { next: usize },
    Scanning,
    Planning,
    StagingRewrites,
    Validating,
    /// Waiting for the commit; the warnings to print after it.
    Committing { warnings: Vec<String> },
    /// After the commit: waiting for the work after move operation `next`.
    PostCommit { next: usize },
    Finished,
}

/// What the outside step just done reported.
#[derive(Debug)]
pub enum ApplyEvent {
    /// The checks before any change: their error, and whether the plan looks applied already.
    Preflighted { error: Option<String>, already_applied: bool },
    Initialized(bool),
    Locked(Result<(), String>),
    StagingDir(Result<(), String>),
    OpDone(Result<(), String>),
    Scanned(Result<(), String>),
    Planned(Result<(), String>),
    Staged(Result<(), String>),
    /// The validation's warnings for acknowledged broken references, or its error.
    Validated(Result<Vec<String>, String>),
    Committed(Result<(), String>),
    /// After a move: how many other files had the source's path replaced, and
    /// the workspace's files in ascending order with their texts now.
    PostMoved { non_md: usize, files: Vec<String>, contents: Vec<Option<String>> },
}

/// The outside step to take next.
#[derive(Debug)]
pub enum ApplyAction {
    CheckInitialized,
    /// Take the lock, naming the run with the text given.
    AcquireLock(String),
    CreateStagingDir,
    CreateDir(String),
    MoveFile(String, String),
    /// Run the text rename of operation `i`.
    RenameText(usize),
    ScanWorkspace,
    PlanRewrites,
    StageRewrites,
    ValidateStaged,
    CommitRewrites,
    /// After the commit, for a move of `src` to `dst`: release the lock first
    /// when `release_lock`, replace the path in the other files and read the
    /// workspace's files.
    PostMove { src: String, dst: String, release_lock: bool },
    /// Stop: remove the staging area when `cleanup`, release the lock when
    /// `release_lock`, and exit with `code`.
    Exit { code: i32, cleanup: bool, release_lock: bool },
}

/// The next state, the lines for standard output and for standard error, and
/// the next action.
#[derive(Debug)]
pub struct ApplyStep {
    pub state: ApplyState,
    pub out: Vec<String>,
    pub err: Vec<String>,
    pub action: ApplyAction,
}

// ───────────────────────── the model ─────────────────────────

pub enum StateView {
    Preflight,
    CheckInit,
    Locking,
    Staging,
    Running(int),
    Scanning,
    Planning,
    StagingRewrites,
    Validating,
    Committing(Seq<Seq<char>>),
    PostCommit(int),
    Finished,
}

pub enum EventView {
    Preflighted(Option<Seq<char>>, bool),
    Initialized(bool),
    Locked(Option<Seq<char>>),
    StagingDir(Option<Seq<char>>),
    OpDone(Option<Seq<char>>),
    Scanned(Option<Seq<char>>),
    Planned(Option<Seq<char>>),
    Staged(Option<Seq<char>>),
    Validated(Result<Seq<Seq<char>>, Seq<char>>),
    Committed(Option<Seq<char>>),
    /// The count of other files updated, the number of files and the lengths of the texts.
    PostMoved(nat, nat, Seq<Option<nat>>),
}

pub enum ActionView {
    CheckInitialized,
    AcquireLock(Seq<char>),
    CreateStagingDir,
    CreateDir(Seq<char>),
    MoveFile(Seq<char>, Seq<char>),
    RenameText(int),
    ScanWorkspace,
    PlanRewrites,
    StageRewrites,
    ValidateStaged,
    CommitRewrites,
    PostMove(Seq<char>, Seq<char>, bool),
    Exit(int, bool, bool),
}

pub open spec fn err_of(r: Result<(), String>) -> Option<Seq<char>> {
    match r {
        Ok(()) => None,
        Err(e) => Some(e@),
    }
}

pub open spec fn state_view(s: ApplyState) -> StateView {
    match s {
        ApplyState::Preflight => StateView::Preflight,
        ApplyState::CheckInit => StateView::CheckInit,
        ApplyState::Locking => StateView::Locking,
        ApplyState::Staging => StateView::Staging,
        ApplyState::Running { next } => StateView::Running(next as int),
        ApplyState::Scanning => StateView::Scanning,
        ApplyState::Planning => StateView::Planning,
        ApplyState::StagingRewrites => StateView::StagingRewrites,
        ApplyState::Validating => StateView::Validating,
        ApplyState::Committing { warnings } => StateView::Committing(string_views(warnings@)),
        ApplyState::PostCommit { next } => StateView::PostCommit(next as int),
        ApplyState::Finished => StateView::Finished,
    }
}

pub open spec fn event_view(e: ApplyEvent) -> EventView {
    match e {
        ApplyEvent::Preflighted { error, already_applied } => EventView::Preflighted(
            match error {
                Some(m) => Some(m@),
                None => None,
            },
            already_applied,
        ),
        ApplyEvent::Initialized(b) => EventView::Initialized(b),
        ApplyEvent::Locked(r) => EventView::Locked(err_of(r)),
        ApplyEvent::StagingDir(r) => EventView::StagingDir(err_of(r)),
        ApplyEvent::OpDone(r) => EventView::OpDone(err_of(r)),
        ApplyEvent::Scanned(r) => EventView::Scanned(err_of(r)),
        ApplyEvent::Planned(r) => EventView::Planned(err_of(r)),
        ApplyEvent::Staged(r) => EventView::Staged(err_of(r)),
        ApplyEvent::Validated(r) => EventView::Validated(
            match r {
                Ok(w) => Ok(string_views(w@)),
                Err(m) => Err(m@),
            },
        ),
        ApplyEvent::Committed(r) => EventView::Committed(err_of(r)),
        ApplyEvent::PostMoved { non_md, files, contents } => EventView::PostMoved(
            non_md as nat,
            files@.len(),
            contents@.map_values(
                |c: Option<String>|
                    match c {
                        Some(t) => Some(t@.len()),
                        None => None,
                    },
            ),
        ),
    }
}

pub open spec fn action_view(a: ApplyAction) -> ActionView {
    match a {
        ApplyAction::CheckInitialized => ActionView::CheckInitialized,
        ApplyAction::AcquireLock(t) => ActionView::AcquireLock(t@),
        ApplyAction::CreateStagingDir => ActionView::CreateStagingDir,
        ApplyAction::CreateDir(p) => ActionView::CreateDir(p@),
        ApplyAction::MoveFile(s, d) => ActionView::MoveFile(s@, d@),
        ApplyAction::RenameText(i) => ActionView::RenameText(i as int),
        ApplyAction::ScanWorkspace => ActionView::ScanWorkspace,
        ApplyAction::PlanRewrites => ActionView::PlanRewrites,
        ApplyAction::StageRewrites => ActionView::StageRewrites,
        ApplyAction::ValidateStaged => ActionView::ValidateStaged,
        ApplyAction::CommitRewrites => ActionView::CommitRewrites,
        ApplyAction::PostMove { src, dst, release_lock } => ActionView::PostMove(src@, dst@, release_lock),
        ApplyAction::Exit { code, cleanup, release_lock } => ActionView::Exit(code as int, cleanup, release_lock),
    }
}

pub open spec fn step_view(r: ApplyStep) -> (StateView, Seq<Seq<char>>, Seq<Seq<char>>, ActionView) {
    (state_view(r.state), string_views(r.out@), string_views(r.err@), action_view(r.action))
}

/// Whether `ev` is the report the state `s` waits for, in a plan of `n` operations.
pub open spec fn event_fits(s: StateView, ev: EventView, n: int) -> bool {
    match (s, ev) {
        (StateView::Preflight, EventView::Preflighted(_, _)) => true,
        (StateView::CheckInit, EventView::Initialized(_)) => true,
        (StateView::Locking, EventView::Locked(_)) => true,
        (StateView::Staging, EventView::StagingDir(_)) => true,
        (StateView::Running(i), EventView::OpDone(_)) => 0 <= i < n,
        (StateView::Scanning, EventView::Scanned(_)) => true,
        (StateView::Planning, EventView::Planned(_)) => true,
        (StateView::StagingRewrites, EventView::Staged(_)) => true,
        (StateView::Validating, EventView::Validated(_)) => true,
        (StateView::Committing(_), EventView::Committed(_)) => true,
        (StateView::PostCommit(i), EventView::PostMoved(_, nf, lens)) => 0 <= i < n && lens.len() == nf && forall|
            j: int,
        | 0 <= j < lens.len() && (#[trigger] lens[j]) is Some ==> lens[j].unwrap() < usize::MAX,
        _ => false,
    }
}

/// `[c/n] `.
pub open spec fn progress(c: int, n: int) -> Seq<char> {
    "["@ + dec(c as nat) + "/"@ + dec(n as nat) + "] "@
}

/// The action that performs operation `i`.
pub open spec fn op_action(o: OpView, i: int) -> ActionView {
    match o {
        OpView::Move(s, d) => ActionView::MoveFile(s, d),
        OpView::CreateDir(p) => ActionView::CreateDir(p),
        OpView::TextRename => ActionView::RenameText(i),
    }
}

/// The line for an operation that completed as the `c`-th of `n`.
pub open spec fn done_line(o: OpView, c: int, n: int) -> Seq<char> {
    progress(c, n) + match o {
        OpView::Move(s, d) => "moved "@ + s + " \u{2192} "@ + d,
        OpView::CreateDir(p) => "created "@ + p + "/"@,
        OpView::TextRename => "replaced text"@,
    }
}

/// The error line for an operation that failed with `e`.
pub open spec fn fail_line(o: OpView, e: Seq<char>) -> Seq<char> {
    match o {
        OpView::Move(s, d) => "error moving "@ + s + " \u{2192} "@ + d + ": "@ + e,
        OpView::CreateDir(p) => "error creating "@ + p + "/: "@ + e,
        OpView::TextRename => "error replacing text: "@ + e,
    }
}

pub open spec fn stopped_line(c: int, n: int) -> Seq<char> {
    "Stopped after "@ + dec(c as nat) + "/"@ + dec(n as nat) + " operations completed."@
}

pub open spec fn applied_note() -> Seq<char> {
    "note: all sources are missing and destinations already exist \u{2014} this plan may have already been applied. Nothing was changed."@
}

/// The first operation's step (or the scan, for a plan without operations).
pub open spec fn start_ops(ops: Seq<OpView>) -> (StateView, ActionView) {
    if ops.len() == 0 {
        (StateView::Scanning, ActionView::ScanWorkspace)
    } else {
        (StateView::Running(0), op_action(ops[0], 0))
    }
}

/// The first move operation at or after `from` (`ops.len()` when there is none).
pub open spec fn next_move(ops: Seq<OpView>, from: int) -> int
    decreases ops.len() - from,
{
    if from < 0 || from >= ops.len() {
        ops.len() as int
    } else if ops[from] is Move {
        from
    } else {
        next_move(ops, from + 1)
    }
}

pub open spec fn post_move_action(o: OpView, release_lock: bool) -> ActionView {
    match o {
        OpView::Move(s, d) => ActionView::PostMove(s, d, release_lock),
        _ => ActionView::Exit(0, false, release_lock),
    }
}

/// What is reported after a move of `src`: how many other files were
/// updated, and the plain-text mentions left in Markdown files.
pub open spec fn post_move_lines(src: Seq<char>, non_md: nat, files: Seq<String>, contents: Seq<Option<String>>) -> Seq<
    Seq<char>,
> {
    (if non_md > 0 {
        seq![dec(non_md) + " non-markdown file(s) updated."@]
    } else {
        seq![]
    }) + match warning_views(
        full_counts(files, contents, src, files.len() as int),
        hit_views_sorted(files, contents, src),
        trailing_of(src),
    ) {
        Some(w) => seq![w],
        None => seq![],
    }
}

/// What follows the report `ev` in state `s`, for the plan's operations `ops`;
/// `files` and `contents` are the exec lists behind a `PostMoved` report.
pub open spec fn apply_next(
    ops: Seq<OpView>,
    s: StateView,
    ev: EventView,
    files: Seq<String>,
    contents: Seq<Option<String>>,
) -> (StateView, Seq<Seq<char>>, Seq<Seq<char>>, ActionView) {
    let n = ops.len() as int;
    let stop = |code: int, err: Seq<char>, cleanup: bool, release: bool|
        (StateView::Finished, Seq::<Seq<char>>::empty(), seq![err], ActionView::Exit(code, cleanup, release));
    match ev {
        EventView::Preflighted(error, already) => match error {
            Some(e) => stop(1, if already { applied_note() } else { e }, false, false),
            None => (StateView::CheckInit, seq![], seq![], ActionView::CheckInitialized),
        },
        EventView::Initialized(ok) => if ok {
            (StateView::Locking, seq![], seq![], ActionView::AcquireLock("apply: batch "@ + dec(n as nat) + " ops"@))
        } else {
            stop(2, "error: workspace not initialized. Run 'anchor init' first."@, false, false)
        },
        EventView::Locked(r) => match r {
            Some(e) => stop(2, "error: lock: "@ + e, false, false),
            None => (StateView::Staging, seq![], seq![], ActionView::CreateStagingDir),
        },
        EventView::StagingDir(r) => match r {
            Some(e) => stop(2, "error: temp dir: "@ + e, false, true),
            None => (start_ops(ops).0, seq![], seq![], start_ops(ops).1),
        },
        EventView::OpDone(r) => {
            let i = match s {
                StateView::Running(i) => i,
                _ => 0,
            };
            match r {
                Some(e) => (
                    StateView::Finished,
                    seq![stopped_line(i, n)],
                    seq![fail_line(ops[i], e)],
                    ActionView::Exit(1, true, true),
                ),
                None => if i + 1 < n {
                    (StateView::Running(i + 1), seq![done_line(ops[i], i + 1, n)], seq![], op_action(ops[i + 1], i + 1))
                } else {
                    (StateView::Scanning, seq![done_line(ops[i], i + 1, n)], seq![], ActionView::ScanWorkspace)
                },
            }
        },
        EventView::Scanned(r) => match r {
            Some(e) => stop(2, "error: "@ + e, true, true),
            None => (StateView::Planning, seq![], seq![], ActionView::PlanRewrites),
        },
        EventView::Planned(r) => match r {
            Some(e) => stop(1, "error: plan: "@ + e, true, true),
            None => (StateView::StagingRewrites, seq![], seq![], ActionView::StageRewrites),
        },
        EventView::Staged(r) => match r {
            Some(e) => stop(1, "error: stage: "@ + e, true, true),
            None => (StateView::Validating, seq![], seq![], ActionView::ValidateStaged),
        },
        EventView::Validated(r) => match r {
            Err(e) => stop(1, e, true, true),
            Ok(w) => (StateView::Committing(w), seq![], seq![], ActionView::CommitRewrites),
        },
        EventView::Committed(r) => match r {
            Some(e) => stop(1, "error: commit: "@ + e, false, true),
            None => {
                let w = match s {
                    StateView::Committing(w) => w,
                    _ => seq![],
                };
                let k = next_move(ops, 0);
                (
                    if k < n {
                        StateView::PostCommit(k)
                    } else {
                        StateView::Finished
                    },
                    w.push("Done. "@ + dec(n as nat) + "/"@ + dec(n as nat) + " operations completed."@),
                    seq![],
                    if k < n {
                        post_move_action(ops[k], true)
                    } else {
                        ActionView::Exit(0, false, true)
                    },
                )
            },
        },
        EventView::PostMoved(non_md, _, _) => {
            let i = match s {
                StateView::PostCommit(i) => i,
                _ => 0,
            };
            let lines = match ops[i] {
                OpView::Move(src, _) => post_move_lines(src, non_md, files, contents),
                _ => seq![],
            };
            let k = next_move(ops, i + 1);
            if k < n {
                (StateView::PostCommit(k), seq![], lines, post_move_action(ops[k], false))
            } else {
                (StateView::Finished, seq![], lines, ActionView::Exit(0, false, false))
            }
        },
    }
}

// ───────────────────────── the steps ─────────────────────────

fn line(s: String) -> (r: Vec<String>)
    ensures
        string_views(r@) == seq![s@],
{
    let mut v: Vec<String> = Vec::new();
    v.push(s);
    assert(string_views(v@) =~= seq![s@]);
    v
}

fn stop(code: i32, err: String, cleanup: bool, release_lock: bool) -> (r: ApplyStep)
    ensures
        step_view(r) == (
            StateView::Finished,
            Seq::<Seq<char>>::empty(),
            seq![err@],
            ActionView::Exit(code as int, cleanup, release_lock),
        ),
{
    let r = ApplyStep {
        state: ApplyState::Finished,
        out: Vec::new(),
        err: line(err),
        action: ApplyAction::Exit { code, cleanup, release_lock },
    };
    assert(string_views(r.out@) =~= Seq::<Seq<char>>::empty());
    r
}

fn go(state: ApplyState, action: ApplyAction) -> (r: ApplyStep)
    ensures
        step_view(r) == (state_view(state), Seq::<Seq<char>>::empty(), Seq::<Seq<char>>::empty(), action_view(action)),
{
    let r = ApplyStep { state, out: Vec::new(), err: Vec::new(), action };
    assert(string_views(r.out@) =~= Seq::<Seq<char>>::empty());
    assert(string_views(r.err@) =~= Seq::<Seq<char>>::empty());
    r
}

fn prefixed(p: &str, e: &str) -> (r: String)
    ensures
        r@ == p@ + e@,
{
    let mut s = p.to_owned();
    s.append(e);
    s
}

fn progress_text(c: usize, n: usize) -> (r: String)
    ensures
        r@ == progress(c as int, n as int),
{
    proof {
        reveal_strlit("[");
        reveal_strlit("/");
        reveal_strlit("] ");
    }
    let mut s = "[".to_owned();
    push_decimal(&mut s, c);
    s.append("/");
    push_decimal(&mut s, n);
    s.append("] ");
    s
}

fn op_action_exec(o: &Op, i: usize) -> (r: ApplyAction)
    ensures
        action_view(r) == op_action(op_view(*o), i as int),
{
    match o {
        Op::Move { src, dst } => ApplyAction::MoveFile(src.clone(), dst.clone()),
        Op::CreateDir { path } => ApplyAction::CreateDir(path.clone()),
        Op::TextRename(_) => ApplyAction::RenameText(i),
    }
}

fn done_text(o: &Op, c: usize, n: usize) -> (r: String)
    ensures
        r@ == done_line(op_view(*o), c as int, n as int),
{
    proof {
        reveal_strlit("moved ");
        reveal_strlit(" \u{2192} ");
        reveal_strlit("created ");
        reveal_strlit("/");
        reveal_strlit("replaced text");
    }
    let mut s = progress_text(c, n);
    match o {
        Op::Move { src, dst } => {
            s.append("moved ");
            s.append(src.as_str());
            s.append(" \u{2192} ");
            s.append(dst.as_str());
        },
        Op::CreateDir { path } => {
            s.append("created ");
            s.append(path.as_str());
            s.append("/");
        },
        Op::TextRename(_) => {
            s.append("replaced text");
        },
    }
    s
}

fn fail_text(o: &Op, e: &str) -> (r: String)
    ensures
        r@ == fail_line(op_view(*o), e@),
{
    proof {
        reveal_strlit("error moving ");
        reveal_strlit(" \u{2192} ");
        reveal_strlit(": ");
        reveal_strlit("error creating ");
        reveal_strlit("/: ");
        reveal_strlit("error replacing text: ");
    }
    match o {
        Op::Move { src, dst } => {
            let mut s = "error moving ".to_owned();
            s.append(src.as_str());
            s.append(" \u{2192} ");
            s.append(dst.as_str());
            s.append(": ");
            s.append(e);
            s
        },
        Op::CreateDir { path } => {
            let mut s = "error creating ".to_owned();
            s.append(path.as_str());
            s.append("/: ");
            s.append(e);
            s
        },
        Op::TextRename(_) => prefixed("error replacing text: ", e),
    }
}

fn count_line(head: &str, c: usize, n: usize, tail: &str) -> (r: String)
    ensures
        r@ == head@ + dec(c as nat) + "/"@ + dec(n as nat) + tail@,
{
    proof {
        reveal_strlit("/");
    }
    let mut s = head.to_owned();
    push_decimal(&mut s, c);
    s.append("/");
    push_decimal(&mut s, n);
    s.append(tail);
    s
}

/// The step after the report `ev` in state `s`, for the operations of `plan`.
pub fn apply_step(plan: &Plan, s: ApplyState, ev: ApplyEvent) -> (r: ApplyStep)
    requires
        event_fits(state_view(s), event_view(ev), plan.ops@.len() as int),
    ensures
        step_view(r) == apply_next(
            op_views(plan.ops@),
            state_view(s),
            event_view(ev),
            match ev {
                ApplyEvent::PostMoved { files, .. } => files@,
                _ => Seq::<String>::empty(),
            },
            match ev {
                ApplyEvent::PostMoved { contents, .. } => contents@,
                _ => Seq::<Option<String>>::empty(),
            },
        ),
{
    let ghost ops = op_views(plan.ops@);
    let n = plan.ops.len();
    proof {
        reveal_strlit("note: all sources are missing and destinations already exist \u{2014} this plan may have already been applied. Nothing was changed.");
        reveal_strlit("apply: batch ");
        reveal_strlit(" ops");
        reveal_strlit("error: workspace not initialized. Run 'anchor init' first.");
        reveal_strlit("error: lock: ");
        reveal_strlit("error: temp dir: ");
        reveal_strlit("error: ");
        reveal_strlit("error: plan: ");
        reveal_strlit("error: stage: ");
        reveal_strlit("error: commit: ");
        reveal_strlit("Stopped after ");
        reveal_strlit(" operations completed.");
        reveal_strlit("Done. ");
    }
    match ev {
        ApplyEvent::Preflighted { error, already_applied } => match error {
            Some(e) => if already_applied {
                stop(1, "note: all sources are missing and destinations already exist \u{2014} this plan may have already been applied. Nothing was changed.".to_owned(), false, false)
            } else {
                stop(1, e, false, false)
            },
            None => go(ApplyState::CheckInit, ApplyAction::CheckInitialized),
        },
        ApplyEvent::Initialized(ok) => if ok {
            let mut t = "apply: batch ".to_owned();
            push_decimal(&mut t, n);
            t.append(" ops");
            go(ApplyState::Locking, ApplyAction::AcquireLock(t))
        } else {
            stop(2, "error: workspace not initialized. Run 'anchor init' first.".to_owned(), false, false)
        },
        ApplyEvent::Locked(r) => match r {
            Err(e) => stop(2, prefixed("error: lock: ", e.as_str()), false, false),
            Ok(()) => go(ApplyState::Staging, ApplyAction::CreateStagingDir),
        },
        ApplyEvent::StagingDir(r) => match r {
            Err(e) => stop(2, prefixed("error: temp dir: ", e.as_str()), false, true),
            Ok(()) => if n == 0 {
                go(ApplyState::Scanning, ApplyAction::ScanWorkspace)
            } else {
                let a = op_action_exec(&plan.ops[0], 0);
                assert(op_view(plan.ops@[0]) == ops[0]);
                go(ApplyState::Running { next: 0 }, a)
            },
        },
        ApplyEvent::OpDone(r) => {
            let i = match s {
                ApplyState::Running { next } => next,
                _ => 0,
            };
            assert(op_view(plan.ops@[i as int]) == ops[i as int]);
            match r {
                Err(e) => {
                    let out = line(count_line("Stopped after ", i, n, " operations completed."));
                    let err = line(fail_text(&plan.ops[i], e.as_str()));
                    ApplyStep { state: ApplyState::Finished, out, err, action: ApplyAction::Exit { code: 1, cleanup: true, release_lock: true } }
                },
                Ok(()) => {
                    let out = line(done_text(&plan.ops[i], i + 1, n));
                    if i + 1 < n {
                        assert(op_view(plan.ops@[i + 1]) == ops[i + 1]);
                        let a = op_action_exec(&plan.ops[i + 1], i + 1);
                        let r = ApplyStep { state: ApplyState::Running { next: i + 1 }, out, err: Vec::new(), action: a };
                        assert(string_views(r.err@) =~= Seq::<Seq<char>>::empty());
                        r
                    } else {
                        let r = ApplyStep { state: ApplyState::Scanning, out, err: Vec::new(), action: ApplyAction::ScanWorkspace };
                        assert(string_views(r.err@) =~= Seq::<Seq<char>>::empty());
                        r
                    }
                },
            }
        },
        ApplyEvent::Scanned(r) => match r {
            Err(e) => stop(2, prefixed("error: ", e.as_str()), true, true),
            Ok(()) => go(ApplyState::Planning, ApplyAction::PlanRewrites),
        },
        ApplyEvent::Planned(r) => match r {
            Err(e) => stop(1, prefixed("error: plan: ", e.as_str()), true, true),
            Ok(()) => go(ApplyState::StagingRewrites, ApplyAction::StageRewrites),
        },
        ApplyEvent::Staged(r) => match r {
            Err(e) => stop(1, prefixed("error: stage: ", e.as_str()), true, true),
            Ok(()) => go(ApplyState::Validating, ApplyAction::ValidateStaged),
        },
        ApplyEvent::Validated(r) => match r {
            Err(e) => stop(1, e, true, true),
            Ok(w) => go(ApplyState::Committing { warnings: w }, ApplyAction::CommitRewrites),
        },
        ApplyEvent::Committed(r) => match r {
            Err(e) => stop(1, prefixed("error: commit: ", e.as_str()), false, true),
            Ok(()) => {
                let mut out = match s {
                    ApplyState::Committing { warnings } => warnings,
                    _ => Vec::new(),
                };
                let ghost before = string_views(out@);
                out.push(count_line("Done. ", n, n, " operations completed."));
                assert(string_views(out@) =~= before.push(
                    "Done. "@ + dec(n as nat) + "/"@ + dec(n as nat) + " operations completed."@,
                ));
                let k = next_move_exec(&plan.ops, 0);
                let r = if k < n {
                    let a = match &plan.ops[k] {
                        Op::Move { src, dst } => ApplyAction::PostMove { src: src.clone(), dst: dst.clone(), release_lock: true },
                        _ => ApplyAction::Exit { code: 0, cleanup: false, release_lock: true },
                    };
                    assert(op_views(plan.ops@)[k as int] == op_view(plan.ops@[k as int]));
                    ApplyStep { state: ApplyState::PostCommit { next: k }, out, err: Vec::new(), action: a }
                } else {
                    ApplyStep { state: ApplyState::Finished, out, err: Vec::new(), action: ApplyAction::Exit { code: 0, cleanup: false, release_lock: true } }
                };
                assert(string_views(r.err@) =~= Seq::<Seq<char>>::empty());
                r
            },
        },
        ApplyEvent::PostMoved { non_md, files, contents } => {
            let i = match s {
                ApplyState::PostCommit { next } => next,
                _ => 0,
            };
            assert(op_views(plan.ops@)[i as int] == op_view(plan.ops@[i as int]));
            proof {
                assert forall|j: int| 0 <= j < contents@.len() && (#[trigger] contents@[j]) is Some implies contents@[j].unwrap()@.len()
                    < usize::MAX by {
                    let lens = contents@.map_values(
                        |c: Option<String>|
                            match c {
                                Some(t) => Some(t@.len()),
                                None => None,
                            },
                    );
                    assert(lens[j] is Some);
                }
            }
            let err = match &plan.ops[i] {
                Op::Move { src, .. } => post_move_exec(src.as_str(), non_md, &files, &contents),
                _ => {
                    let e: Vec<String> = Vec::new();
                    assert(string_views(e@) =~= Seq::<Seq<char>>::empty());
                    e
                },
            };
            let k = next_move_exec(&plan.ops, i + 1);
            let out: Vec<String> = Vec::new();
            assert(string_views(out@) =~= Seq::<Seq<char>>::empty());
            if k < n {
                let a = match &plan.ops[k] {
                    Op::Move { src, dst } => ApplyAction::PostMove { src: src.clone(), dst: dst.clone(), release_lock: false },
                    _ => ApplyAction::Exit { code: 0, cleanup: false, release_lock: false },
                };
                assert(op_views(plan.ops@)[k as int] == op_view(plan.ops@[k as int]));
                ApplyStep { state: ApplyState::PostCommit { next: k }, out, err, action: a }
            } else {
                ApplyStep { state: ApplyState::Finished, out, err, action: ApplyAction::Exit { code: 0, cleanup: false, release_lock: false } }
            }
        },
    }
}

} // verus!

verus! {

// ───────────────────────── after the commit ─────────────────────────

/// The Markdown files among the first `n` whose text mentions `src`, with
/// the number of mentions.
pub open spec fn full_counts(files: Seq<String>, contents: Seq<Option<String>>, src: Seq<char>, n: int) -> Seq<
    (Seq<char>, nat),
>
    decreases n,
{
    if n <= 0 || n > files.len() || n > contents.len() {
        seq![]
    } else {
        full_counts(files, contents, src, n - 1) + if ends_with_md_chars(files[n - 1]@) && contents[n - 1] is Some
            && count_matches(contents[n - 1].unwrap()@, src) > 0 {
            seq![(files[n - 1]@, count_matches(contents[n - 1].unwrap()@, src))]
        } else {
            seq![]
        }
    }
}

/// The partial-path hits of `src`, ordered by file then segment.
pub open spec fn hit_views_sorted(files: Seq<String>, contents: Seq<Option<String>>, src: Seq<char>) -> Seq<HitView> {
    all_hits(files, contents, partial_segments_spec(src), files.len() as int).sort_by(
        |a: HitView, b: HitView| hit_le(a, b),
    )
}

/// The place of the last `/` before `i` (-1 when there is none).
pub open spec fn last_slash(s: Seq<char>, i: int) -> int
    decreases i,
{
    if i <= 0 || i > s.len() {
        -1
    } else if s[i - 1] == '/' {
        i - 1
    } else {
        last_slash(s, i - 1)
    }
}

/// The last `/`-separated part of `s`.
pub open spec fn trailing_of(s: Seq<char>) -> Seq<char> {
    s.skip(last_slash(s, s.len() as int) + 1)
}

pub open spec fn full_views_text(full: Seq<(Seq<char>, nat)>, t: Seq<char>) -> Seq<char>
    decreases full.len(),
{
    if full.len() == 0 {
        seq![]
    } else {
        full_views_text(full.drop_last(), t) + seq!['\n'] + occurrence_line(full.last().0, full.last().1, t)
    }
}

pub open spec fn hit_views_text(hits: Seq<HitView>) -> Seq<char>
    decreases hits.len(),
{
    if hits.len() == 0 {
        seq![]
    } else {
        hit_views_text(hits.drop_last()) + seq!['\n'] + occurrence_line(hits.last().0, hits.last().2, hits.last().1)
    }
}

/// The plain-text warning over plain values, as `warning_spec` words it.
pub open spec fn warning_views(full: Seq<(Seq<char>, nat)>, hits: Seq<HitView>, t: Seq<char>) -> Option<Seq<char>> {
    if full.len() == 0 && hits.len() == 0 {
        None
    } else {
        Some(warning_header() + full_views_text(full, t) + hit_views_text(hits) + seq!['\n'] + warning_footer(t))
    }
}

pub open spec fn pair_views(full: Seq<(String, usize)>) -> Seq<(Seq<char>, nat)> {
    full.map_values(|p: (String, usize)| (p.0@, p.1 as nat))
}

proof fn lemma_full_text(full: Seq<(String, usize)>, t: Seq<char>)
    ensures
        full_lines_text(full, t) == full_views_text(pair_views(full), t),
    decreases full.len(),
{
    if full.len() > 0 {
        assert(pair_views(full).drop_last() =~= pair_views(full.drop_last()));
        lemma_full_text(full.drop_last(), t);
    }
}

proof fn lemma_hit_text(hits: Seq<PlainTextHit>)
    ensures
        hit_lines_text(hits) == hit_views_text(hit_views(hits)),
    decreases hits.len(),
{
    if hits.len() > 0 {
        assert(hit_views(hits).drop_last() =~= hit_views(hits.drop_last()));
        lemma_hit_text(hits.drop_last());
    }
}

fn trailing_exec(s: &str) -> (r: String)
    ensures
        r@ == trailing_of(s@),
{
    let n = s.unicode_len();
    let mut i: usize = n;
    while i > 0 && s.get_char(i - 1) != '/'
        invariant
            n == s@.len(),
            i <= n,
            last_slash(s@, i as int) == last_slash(s@, n as int),
        decreases i,
    {
        i = i - 1;
    }
    s.substring_char(i, n).to_owned()
}

fn next_move_exec(ops: &Vec<Op>, from: usize) -> (r: usize)
    ensures
        r as int == next_move(op_views(ops@), from as int),
        r < ops@.len() ==> op_views(ops@)[r as int] is Move,
        r <= ops@.len(),
{
    let ghost ov = op_views(ops@);
    if from >= ops.len() {
        return ops.len();
    }
    let mut j: usize = from;
    while j < ops.len()
        invariant
            ov == op_views(ops@),
            ov.len() == ops@.len(),
            from <= j <= ops@.len(),
            next_move(ov, j as int) == next_move(ov, from as int),
        decreases ops@.len() - j,
    {
        assert(ov[j as int] == op_view(ops@[j as int]));
        match &ops[j] {
            Op::Move { .. } => {
                return j;
            },
            _ => {},
        }
        j = j + 1;
    }
    j
}

fn post_move_exec(src: &str, non_md: usize, files: &Vec<String>, contents: &Vec<Option<String>>) -> (r: Vec<String>)
    requires
        files@.len() == contents@.len(),
        forall|i: int| 0 <= i < contents@.len() && (#[trigger] contents@[i]) is Some ==> contents@[i].unwrap()@.len() < usize::MAX,
    ensures
        string_views(r@) == post_move_lines(src@, non_md as nat, files@, contents@),
{
    proof {
        reveal_strlit(" non-markdown file(s) updated.");
    }
    let mut out: Vec<String> = Vec::new();
    if non_md > 0 {
        let mut l = String::new();
        push_decimal(&mut l, non_md);
        l.append(" non-markdown file(s) updated.");
        out.push(l);
    }
    let ghost first = string_views(out@);
    let mut full: Vec<(String, usize)> = Vec::new();
    let mut i: usize = 0;
    while i < files.len()
        invariant
            files@.len() == contents@.len(),
            forall|i: int| 0 <= i < contents@.len() && (#[trigger] contents@[i]) is Some ==> contents@[i].unwrap()@.len()
                < usize::MAX,
            i <= files@.len(),
            pair_views(full@) == full_counts(files@, contents@, src@, i as int),
        decreases files@.len() - i,
    {
        let f = &files[i];
        let fl = f.as_str().unicode_len();
        let is_md = fl >= 3 && f.as_str().get_char(fl - 3) == '.' && f.as_str().get_char(fl - 2) == 'm'
            && f.as_str().get_char(fl - 1) == 'd';
        assert(is_md == ends_with_md_chars(f@)) by {
            if fl >= 3 {
                if f@.skip(fl - 3) == seq!['.', 'm', 'd'] {
                    assert(f@.skip(fl - 3)[0] == f@[fl - 3]);
                    assert(f@.skip(fl - 3)[1] == f@[fl - 2]);
                    assert(f@.skip(fl - 3)[2] == f@[fl - 1]);
                }
                if is_md {
                    assert(f@.skip(fl - 3) =~= seq!['.', 'm', 'd']);
                }
            }
        }
        let ghost before = pair_views(full@);
        if is_md {
            match &contents[i] {
                Some(c) => {
                    assert(contents@[i as int] is Some);
                    let k = count_occurrences(c.as_str(), src);
                    if k > 0 {
                        full.push((f.clone(), k));
                        assert(pair_views(full@) =~= before.push((f@, k as nat)));
                    }
                },
                None => {},
            }
        }
        assert(pair_views(full@) == full_counts(files@, contents@, src@, i + 1));
        i = i + 1;
    }
    let hits = plain_text_hits(files.as_slice(), contents.as_slice(), src);
    let t = trailing_exec(src);
    let w = format_plain_text_warning(full.as_slice(), hits.as_slice(), t.as_str());
    proof {
        lemma_full_text(full@, t@);
        lemma_hit_text(hits@);
        assert(hit_views(hits@) == hit_views_sorted(files@, contents@, src@));
        assert(warning_spec(full@, hits@, t@) == warning_views(
            full_counts(files@, contents@, src@, files@.len() as int),
            hit_views_sorted(files@, contents@, src@),
            trailing_of(src@),
        ));
    }
    match w {
        Some(text) => {
            out.push(text);
        },
        None => {},
    }
    out
}

} // verus!

verus! {

/// Whether a file that is not Markdown gets the moved path replaced: a
/// `json`, `yaml`, `yml`, `toml`, `ts`, `js` or `py` file, other than a
/// `Cargo.toml`.
pub open spec fn other_file_rewritten(ext: Option<Seq<char>>, name: Option<Seq<char>>) -> bool {
    match ext {
        Some(e) => (e == "json"@ || e == "yaml"@ || e == "yml"@ || e == "toml"@ || e == "ts"@ || e == "js"@ || e
            == "py"@) && !(e == "toml"@ && name == Some("Cargo.toml"@)),
        None => false,
    }
}

/// Whether the file at `path` gets the moved path replaced after a move.
pub fn rewrites_other_file(path: &str) -> (r: bool)
    ensures
        r == other_file_rewritten(
            crate::selection::std_extension(path@),
            crate::plan_wizard::std_file_name(path@),
        ),
{
    proof {
        reveal_strlit("json");
        reveal_strlit("yaml");
        reveal_strlit("yml");
        reveal_strlit("toml");
        reveal_strlit("ts");
        reveal_strlit("js");
        reveal_strlit("py");
        reveal_strlit("Cargo.toml");
    }
    match crate::selection::path_extension(path) {
        Some(e) => {
            let x = e.as_str();
            let listed = crate::text::str_eq(x, "json") || crate::text::str_eq(x, "yaml") || crate::text::str_eq(x, "yml")
                || crate::text::str_eq(x, "toml") || crate::text::str_eq(x, "ts") || crate::text::str_eq(x, "js")
                || crate::text::str_eq(x, "py");
            if !listed {
                return false;
            }
            if crate::text::str_eq(x, "toml") {
                match crate::plan_wizard::file_name(path) {
                    Some(n) => !crate::text::str_eq(n.as_str(), "Cargo.toml"),
                    None => true,
                }
            } else {
                true
            }
        },
        None => false,
    }
}

} // verus!
