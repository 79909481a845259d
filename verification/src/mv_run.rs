//! The course of `file mv`: the source and destination are resolved to
//! workspace-relative paths (the destination from the current folder when it
//! lies inside the workspace, the source from the root first and from the
//! current folder second), a destination that already exists is refused,
//! and the outcome of the move transaction decides what is printed and the
//! exit status.

use vstd::prelude::*;
use vstd::string::*;
use crate::fmt::{dec, push_decimal};
use crate::resolver::{slashes_forward, strip_dot_slash};
use crate::suggest::{format_suggestions, suggest_similar, suggestions_spec, suggestions_text};
use crate::tenancy::{path_starts_with, std_starts_with};
use crate::text::string_views;

verus! {

broadcast use vstd::seq::group_seq_axioms;

/// Whether a path is absolute, as `std::path::Path::is_absolute` answers on
/// Unix: it starts with the root `/`.
pub open spec fn std_is_absolute(p: Seq<char>) -> bool {
    p.len() > 0 && p[0] == '/'
}

fn path_is_absolute(p: &str) -> (r: bool)
    ensures
        r == std_is_absolute(p@),
{
    p.unicode_len() > 0 && p.get_char(0) == '/'
}

/// What `std::path::Path::join` gives for `base` and `p`, as text.
pub uninterp spec fn std_join(base: Seq<char>, p: Seq<char>) -> Seq<char>;

/// `Path::new(base).join(p)` as text; named `std_join`.
#[verifier::external_body]
fn path_join(base: &str, p: &str) -> (r: String)
    ensures
        r@ == std_join(base@, p@),
{
    std::path::Path::new(base).join(p).to_string_lossy().into_owned()
}

/// What `std::path::Path::strip_prefix` gives for `path` and `base`, as
/// text; `None` where `base` is not a prefix of `path`.
pub uninterp spec fn std_strip_prefix(path: Seq<char>, base: Seq<char>) -> Option<Seq<char>>;

/// `Path::new(path).strip_prefix(base)` as text; named `std_strip_prefix`.
#[verifier::external_body]
fn path_strip_prefix(path: &str, base: &str) -> (r: Option<String>)
    ensures
        opt_view(r) == std_strip_prefix(path@, base@),
{
    std::path::Path::new(path).strip_prefix(base).ok().map(|p| p.to_string_lossy().into_owned())
}

pub open spec fn opt_view(o: Option<String>) -> Option<Seq<char>> {
    match o {
        Some(s) => Some(s@),
        None => None,
    }
}

/// A path as given, made relative to the workspace root: an absolute path
/// loses the root in front (or stays as it is outside the root); a relative
/// one gets forward slashes and loses a leading `./`.
pub open spec fn normalize_spec(root: Seq<char>, p: Seq<char>) -> Seq<char> {
    if std_is_absolute(p) {
        match std_strip_prefix(p, root) {
            Some(r) => slashes_forward(r),
            None => p,
        }
    } else {
        strip_dot_slash(slashes_forward(p))
    }
}

/// `abs` relative to the root, with forward slashes, when it lies under the root.
pub open spec fn under_root(abs: Seq<char>, root: Seq<char>) -> Option<Seq<char>> {
    if std_starts_with(abs, root) {
        match std_strip_prefix(abs, root) {
            Some(r) => Some(slashes_forward(r)),
            None => None,
        }
    } else {
        None
    }
}

/// The destination relative to the root: a relative destination is taken
/// from the current folder when that puts it under the root.
pub open spec fn dst_spec(root: Seq<char>, dst: Seq<char>, cwd: Option<Seq<char>>) -> Seq<char> {
    if std_is_absolute(dst) {
        normalize_spec(root, dst)
    } else {
        match cwd {
            Some(c) => match under_root(std_join(c, dst), root) {
                Some(r) => r,
                None => normalize_spec(root, dst),
            },
            None => normalize_spec(root, dst),
        }
    }
}

fn forward_slashes(s: &str) -> (r: String)
    ensures
        r@ == slashes_forward(s@),
{
    let n = s.unicode_len();
    let mut out = String::new();
    let mut i: usize = 0;
    while i < n
        invariant
            n == s@.len(),
            0 <= i <= n,
            out@ =~= slashes_forward(s@).take(i as int),
        decreases n - i,
    {
        let c = s.get_char(i);
        crate::text::push_char(&mut out, if c == '\\' { '/' } else { c });
        i = i + 1;
    }
    assert(out@ =~= slashes_forward(s@));
    out
}

fn normalize_exec(root: &str, p: &str) -> (r: String)
    ensures
        r@ == normalize_spec(root@, p@),
{
    if path_is_absolute(p) {
        match path_strip_prefix(p, root) {
            Some(r) => forward_slashes(r.as_str()),
            None => p.to_owned(),
        }
    } else {
        crate::resolver::canonical_from_cleaned(p)
    }
}

fn under_root_exec(abs: &str, root: &str) -> (r: Option<String>)
    ensures
        opt_view(r) == under_root(abs@, root@),
{
    if path_starts_with(abs, root) {
        match path_strip_prefix(abs, root) {
            Some(r) => Some(forward_slashes(r.as_str())),
            None => None,
        }
    } else {
        None
    }
}

/// The destination of a move relative to the workspace root `root`, for
/// `dst` as given from the current folder `cwd`.
pub fn resolve_dst(root: &str, dst: &str, cwd: &Option<String>) -> (r: String)
    ensures
        r@ == dst_spec(root@, dst@, opt_view(*cwd)),
{
    if path_is_absolute(dst) {
        normalize_exec(root, dst)
    } else {
        match cwd {
            Some(c) => {
                let abs = path_join(c.as_str(), dst);
                match under_root_exec(abs.as_str(), root) {
                    Some(r) => r,
                    None => normalize_exec(root, dst),
                }
            },
            None => normalize_exec(root, dst),
        }
    }
}

// ───────────────────────── the course of a move ─────────────────────────

/// What the move transaction (lock, scan, plan, set-up, apply, validation,
/// commit) came to; it stops at the first failure.
#[derive(Debug)]
pub enum TxOutcome {
    LockFailed(String),
    ScanFailed(String),
    /// Planning or recording the operation failed.
    TransactionFailed(String),
    NotInitialized,
    TempFailed(String),
    ApplyFailed(String),
    /// References broken after the rewrite: file, line and target of each.
    Broken(Vec<(String, usize, String)>),
    ValidateFailed(String),
    CommitFailed(String),
    /// Committed: the references rewritten and the files they are in.
    Committed { refs: usize, files: usize },
}

/// A move as asked for.
#[derive(Debug)]
pub struct MvRequest {
    pub src: String,
    pub dst: String,
    pub verbose: bool,
    /// `--format` was given.
    pub format_given: bool,
    /// `--format json` was given.
    pub json: bool,
    pub root: String,
    pub cwd: Option<String>,
}

/// Where a move stands.
#[derive(Debug)]
pub enum MvState {
    Start(MvRequest),
    /// Waiting to learn whether the source exists under the root as `rel`.
    SrcAtRoot { req: MvRequest, dst: String, rel: String },
    /// Waiting to learn whether the source exists from the current folder, at `abs`.
    SrcAtCwd { req: MvRequest, dst: String, abs: String },
    /// Waiting for the workspace's files, to suggest a source.
    Suggesting { req: MvRequest },
    /// Waiting to learn whether the destination exists.
    DstCheck { req: MvRequest, src: String, dst: String },
    /// Waiting for the transaction's outcome.
    Transacting { req: MvRequest, src: String, dst: String },
    /// Waiting for the work after the commit.
    Finishing { req: MvRequest, src: String, dst: String, refs: usize, files: usize },
    Finished,
}

/// What the outside step reported.
#[derive(Debug)]
pub enum MvEvent {
    Begin,
    Exists(bool),
    /// The workspace's files.
    Files(Vec<String>),
    TxDone(TxOutcome),
    /// After the commit: how many non-Markdown files were updated, and how
    /// many plain-text mentions of the source stay in Markdown files.
    PostCommit { non_md: usize, plaintext: usize },
}

/// The next outside step.
#[derive(Debug)]
pub enum MvAction {
    /// Learn whether the path exists.
    CheckExists(String),
    /// List the workspace's files.
    ListFiles,
    /// Run the move transaction of `src` to `dst` under the lock text `lock_op`.
    Transact { src: String, dst: String, lock_op: String },
    /// Update the other files and count the plain-text mentions.
    PostCommit { src: String, dst: String },
    /// End with `code`; on success with `--format json`, print the JSON
    /// summary of the move (`src`, `dst`, references, files).
    Exit { code: i32, json: Option<(String, String, usize, usize)> },
}

/// A step: the new state, the lines for standard error and standard output,
/// and the next outside step.
pub struct MvStep {
    pub state: MvState,
    pub err: Vec<String>,
    pub out: Vec<String>,
    pub action: MvAction,
}

// ───────────────────────── the model ─────────────────────────

pub struct ReqView {
    pub src: Seq<char>,
    pub dst: Seq<char>,
    pub verbose: bool,
    pub format_given: bool,
    pub json: bool,
    pub root: Seq<char>,
    pub cwd: Option<Seq<char>>,
}

pub enum MvStateView {
    Start(ReqView),
    SrcAtRoot(ReqView, Seq<char>, Seq<char>),
    SrcAtCwd(ReqView, Seq<char>, Seq<char>),
    Suggesting(ReqView),
    DstCheck(ReqView, Seq<char>, Seq<char>),
    Transacting(ReqView, Seq<char>, Seq<char>),
    Finishing(ReqView, Seq<char>, Seq<char>, nat, nat),
    Finished,
}

pub enum TxView {
    LockFailed(Seq<char>),
    ScanFailed(Seq<char>),
    TransactionFailed(Seq<char>),
    NotInitialized,
    TempFailed(Seq<char>),
    ApplyFailed(Seq<char>),
    Broken(Seq<(Seq<char>, nat, Seq<char>)>),
    ValidateFailed(Seq<char>),
    CommitFailed(Seq<char>),
    Committed(nat, nat),
}

pub enum MvEventView {
    Begin,
    Exists(bool),
    Files(Seq<Seq<char>>),
    TxDone(TxView),
    PostCommit(nat, nat),
}

pub enum MvActionView {
    CheckExists(Seq<char>),
    ListFiles,
    Transact(Seq<char>, Seq<char>, Seq<char>),
    PostCommit(Seq<char>, Seq<char>),
    Exit(int, Option<(Seq<char>, Seq<char>, nat, nat)>),
}

pub open spec fn req_view(r: MvRequest) -> ReqView {
    ReqView {
        src: r.src@,
        dst: r.dst@,
        verbose: r.verbose,
        format_given: r.format_given,
        json: r.json,
        root: r.root@,
        cwd: opt_view(r.cwd),
    }
}

pub open spec fn mv_state_view(s: MvState) -> MvStateView {
    match s {
        MvState::Start(r) => MvStateView::Start(req_view(r)),
        MvState::SrcAtRoot { req, dst, rel } => MvStateView::SrcAtRoot(req_view(req), dst@, rel@),
        MvState::SrcAtCwd { req, dst, abs } => MvStateView::SrcAtCwd(req_view(req), dst@, abs@),
        MvState::Suggesting { req } => MvStateView::Suggesting(req_view(req)),
        MvState::DstCheck { req, src, dst } => MvStateView::DstCheck(req_view(req), src@, dst@),
        MvState::Transacting { req, src, dst } => MvStateView::Transacting(req_view(req), src@, dst@),
        MvState::Finishing { req, src, dst, refs, files } => MvStateView::Finishing(
            req_view(req),
            src@,
            dst@,
            refs as nat,
            files as nat,
        ),
        MvState::Finished => MvStateView::Finished,
    }
}

pub open spec fn broken_view(v: Seq<(String, usize, String)>) -> Seq<(Seq<char>, nat, Seq<char>)> {
    v.map_values(|b: (String, usize, String)| (b.0@, b.1 as nat, b.2@))
}

pub open spec fn tx_view(t: TxOutcome) -> TxView {
    match t {
        TxOutcome::LockFailed(e) => TxView::LockFailed(e@),
        TxOutcome::ScanFailed(e) => TxView::ScanFailed(e@),
        TxOutcome::TransactionFailed(e) => TxView::TransactionFailed(e@),
        TxOutcome::NotInitialized => TxView::NotInitialized,
        TxOutcome::TempFailed(e) => TxView::TempFailed(e@),
        TxOutcome::ApplyFailed(e) => TxView::ApplyFailed(e@),
        TxOutcome::Broken(v) => TxView::Broken(broken_view(v@)),
        TxOutcome::ValidateFailed(e) => TxView::ValidateFailed(e@),
        TxOutcome::CommitFailed(e) => TxView::CommitFailed(e@),
        TxOutcome::Committed { refs, files } => TxView::Committed(refs as nat, files as nat),
    }
}

pub open spec fn mv_event_view(e: MvEvent) -> MvEventView {
    match e {
        MvEvent::Begin => MvEventView::Begin,
        MvEvent::Exists(b) => MvEventView::Exists(b),
        MvEvent::Files(v) => MvEventView::Files(string_views(v@)),
        MvEvent::TxDone(t) => MvEventView::TxDone(tx_view(t)),
        MvEvent::PostCommit { non_md, plaintext } => MvEventView::PostCommit(non_md as nat, plaintext as nat),
    }
}

pub open spec fn mv_action_view(a: MvAction) -> MvActionView {
    match a {
        MvAction::CheckExists(p) => MvActionView::CheckExists(p@),
        MvAction::ListFiles => MvActionView::ListFiles,
        MvAction::Transact { src, dst, lock_op } => MvActionView::Transact(src@, dst@, lock_op@),
        MvAction::PostCommit { src, dst } => MvActionView::PostCommit(src@, dst@),
        MvAction::Exit { code, json } => MvActionView::Exit(
            code as int,
            match json {
                Some(j) => Some((j.0@, j.1@, j.2 as nat, j.3 as nat)),
                None => None,
            },
        ),
    }
}

pub open spec fn mv_step_view(r: MvStep) -> (MvStateView, Seq<Seq<char>>, Seq<Seq<char>>, MvActionView) {
    (mv_state_view(r.state), string_views(r.err@), string_views(r.out@), mv_action_view(r.action))
}

/// The event answers the step the state waits for.
pub open spec fn mv_event_fits(s: MvStateView, ev: MvEventView) -> bool {
    match s {
        MvStateView::Start(..) => ev is Begin,
        MvStateView::SrcAtRoot(..) => ev is Exists,
        MvStateView::SrcAtCwd(..) => ev is Exists,
        MvStateView::Suggesting(r) => ev is Files && vstd::utf8::encode_utf8(r.src).len() < usize::MAX,
        MvStateView::DstCheck(..) => ev is Exists,
        MvStateView::Transacting(..) => ev is TxDone,
        MvStateView::Finishing(..) => ev is PostCommit,
        MvStateView::Finished => false,
    }
}

pub open spec fn stop(code: int, lines: Seq<Seq<char>>) -> (MvStateView, Seq<Seq<char>>, Seq<Seq<char>>, MvActionView) {
    (MvStateView::Finished, lines, seq![], MvActionView::Exit(code, None))
}

/// The step that follows once the source `src` is known.
pub open spec fn check_dst(r: ReqView, src: Seq<char>, dst: Seq<char>) -> (MvStateView, Seq<Seq<char>>, Seq<Seq<char>>, MvActionView) {
    (MvStateView::DstCheck(r, src, dst), seq![], seq![], MvActionView::CheckExists(std_join(r.root, dst)))
}

/// The hint after a missing source: where paths are resolved from, and the
/// path to use when the source exists from the current folder.
pub open spec fn src_hint(r: ReqView) -> Seq<char> {
    let head = "  Hint: paths are resolved from workspace root ("@ + r.root + ")"@;
    match r.cwd {
        Some(c) => {
            let abs = std_join(c, r.src);
            if std_starts_with(abs, r.root) {
                match std_strip_prefix(abs, r.root) {
                    Some(rel) => head + "\n  If you meant '"@ + abs + "', use the path '"@ + rel + "'"@,
                    None => head,
                }
            } else {
                head
            }
        },
        None => head,
    }
}

/// The corrected command for the best suggestion.
pub open spec fn corrected(s: Seq<Seq<char>>, dst: Seq<char>) -> Option<Seq<char>> {
    if s.len() > 0 {
        Some("anchor file mv \""@ + s[0] + "\" "@ + dst)
    } else {
        None
    }
}

pub open spec fn broken_line(b: (Seq<char>, nat, Seq<char>)) -> Seq<char> {
    "  "@ + b.0 + ":"@ + dec(b.1) + " \u{2192} "@ + b.2 + "  (not found)"@
}

/// The report of references broken by the rewrite.
pub open spec fn broken_report(bs: Seq<(Seq<char>, nat, Seq<char>)>) -> Seq<Seq<char>> {
    seq![seq![], "BROKEN REFERENCES AFTER REWRITE ("@ + dec(bs.len()) + "):"@] + bs.map_values(
        |b: (Seq<char>, nat, Seq<char>)| broken_line(b),
    ) + seq![seq![], "Rolled back. No changes applied."@]
}

/// What a transaction outcome leads to.
pub open spec fn after_tx(r: ReqView, src: Seq<char>, dst: Seq<char>, t: TxView) -> (MvStateView, Seq<Seq<char>>, Seq<Seq<char>>, MvActionView) {
    match t {
        TxView::LockFailed(e) => stop(2, seq!["error: lock error: "@ + e]),
        TxView::ScanFailed(e) => stop(2, seq!["error: scanner error: "@ + e]),
        TxView::TransactionFailed(e) => stop(2, seq!["error: transaction error: "@ + e]),
        TxView::NotInitialized => stop(2, seq!["error: workspace not initialized. Run 'anchor init' first."@]),
        TxView::TempFailed(e) => stop(2, seq!["error: temp error: "@ + e]),
        TxView::ApplyFailed(e) => stop(2, seq!["error during apply: "@ + e]),
        TxView::Broken(bs) => stop(1, broken_report(bs)),
        TxView::ValidateFailed(e) => stop(2, seq!["error during validate: "@ + e]),
        TxView::CommitFailed(e) => stop(2, seq!["error during commit: "@ + e]),
        TxView::Committed(refs, files) => (
            MvStateView::Finishing(r, src, dst, refs, files),
            seq![],
            seq![],
            MvActionView::PostCommit(src, dst),
        ),
    }
}

/// The notes after the commit and the closing summary.
pub open spec fn finish(r: ReqView, src: Seq<char>, dst: Seq<char>, refs: nat, files: nat, non_md: nat, plaintext: nat) -> (MvStateView, Seq<Seq<char>>, Seq<Seq<char>>, MvActionView) {
    let notes = (if non_md > 0 {
        seq![dec(non_md) + " non-markdown file(s) updated."@]
    } else {
        seq![]
    }) + (if refs == 0 && plaintext > 0 {
        seq![
            "note: 0 markdown refs rewritten. "@ + dec(plaintext) + " plain-text occurrence(s) of '"@ + src
                + "' in .md files were not rewritten."@,
        ]
    } else {
        seq![]
    });
    let out = if r.verbose {
        seq!["Moved. Rewrote "@ + dec(refs) + " references in "@ + dec(files) + " files."@]
    } else {
        seq![]
    };
    let json = if !r.verbose && r.json {
        Some((src, dst, refs, files))
    } else {
        None
    };
    (MvStateView::Finished, notes, out, MvActionView::Exit(0, json))
}

/// The next state, the lines for standard error and output, and the next
/// step after `ev` in `s`. `files` is the exec list behind a `Files` event.
pub open spec fn mv_next(s: MvStateView, ev: MvEventView, files: Seq<String>) -> (MvStateView, Seq<Seq<char>>, Seq<Seq<char>>, MvActionView) {
    match (s, ev) {
        (MvStateView::Start(r), _) => if r.verbose && r.format_given {
            stop(1, seq!["error: --verbose and --format are mutually exclusive"@])
        } else {
            let dst = dst_spec(r.root, r.dst, r.cwd);
            let rel = normalize_spec(r.root, r.src);
            (MvStateView::SrcAtRoot(r, dst, rel), seq![], seq![], MvActionView::CheckExists(std_join(r.root, rel)))
        },
        (MvStateView::SrcAtRoot(r, dst, rel), MvEventView::Exists(b)) => if b {
            check_dst(r, rel, dst)
        } else {
            match r.cwd {
                Some(c) => (
                    MvStateView::SrcAtCwd(r, dst, std_join(c, r.src)),
                    seq![],
                    seq![],
                    MvActionView::CheckExists(std_join(c, r.src)),
                ),
                None => (MvStateView::Suggesting(r), seq![], seq![], MvActionView::ListFiles),
            }
        },
        (MvStateView::SrcAtCwd(r, dst, abs), MvEventView::Exists(b)) => match (if b {
            under_root(abs, r.root)
        } else {
            None
        }) {
            Some(rel) => check_dst(r, rel, dst),
            None => (MvStateView::Suggesting(r), seq![], seq![], MvActionView::ListFiles),
        },
        (MvStateView::Suggesting(r), MvEventView::Files(_)) => {
            let sug = suggestions_spec(vstd::utf8::encode_utf8(r.src), files);
            stop(1, seq![suggestions_text(r.src, sug, corrected(sug, r.dst)), src_hint(r)])
        },
        (MvStateView::DstCheck(r, src, dst), MvEventView::Exists(b)) => if b {
            stop(1, seq!["dst already exists: "@ + r.dst])
        } else {
            (
                MvStateView::Transacting(r, src, dst),
                seq![],
                seq![],
                MvActionView::Transact(src, dst, "file mv "@ + src + " "@ + dst),
            )
        },
        (MvStateView::Transacting(r, src, dst), MvEventView::TxDone(t)) => after_tx(r, src, dst, t),
        (MvStateView::Finishing(r, src, dst, refs, files_n), MvEventView::PostCommit(non_md, plaintext)) => finish(
            r,
            src,
            dst,
            refs,
            files_n,
            non_md,
            plaintext,
        ),
        _ => stop(2, seq![]),
    }
}


// ───────────────────────── the steps ─────────────────────────

fn stop_step(code: i32, line: String) -> (r: MvStep)
    ensures
        mv_step_view(r) == stop(code as int, seq![line@]),
{
    let mut err: Vec<String> = Vec::new();
    err.push(line);
    let out: Vec<String> = Vec::new();
    assert(string_views(err@) =~= seq![line@]);
    assert(string_views(out@) =~= Seq::<Seq<char>>::empty());
    MvStep { state: MvState::Finished, err, out, action: MvAction::Exit { code, json: None } }
}

fn go(state: MvState, action: MvAction) -> (r: MvStep)
    ensures
        r.state == state,
        r.action == action,
        string_views(r.err@) == Seq::<Seq<char>>::empty(),
        string_views(r.out@) == Seq::<Seq<char>>::empty(),
{
    let err: Vec<String> = Vec::new();
    let out: Vec<String> = Vec::new();
    assert(string_views(err@) =~= Seq::<Seq<char>>::empty());
    assert(string_views(out@) =~= Seq::<Seq<char>>::empty());
    MvStep { state, err, out, action }
}

fn prefixed(head: &str, e: &str) -> (r: String)
    ensures
        r@ == head@ + e@,
{
    let mut s = head.to_owned();
    s.append(e);
    s
}

fn src_hint_exec(req: &MvRequest) -> (r: String)
    ensures
        r@ == src_hint(req_view(*req)),
{
    proof {
        reveal_strlit("  Hint: paths are resolved from workspace root (");
        reveal_strlit(")");
        reveal_strlit("\n  If you meant '");
        reveal_strlit("', use the path '");
        reveal_strlit("'");
    }
    let mut head = "  Hint: paths are resolved from workspace root (".to_owned();
    head.append(req.root.as_str());
    head.append(")");
    match &req.cwd {
        Some(c) => {
            let abs = path_join(c.as_str(), req.src.as_str());
            if path_starts_with(abs.as_str(), req.root.as_str()) {
                match path_strip_prefix(abs.as_str(), req.root.as_str()) {
                    Some(rel) => {
                        head.append("\n  If you meant '");
                        head.append(abs.as_str());
                        head.append("', use the path '");
                        head.append(rel.as_str());
                        head.append("'");
                        head
                    },
                    None => head,
                }
            } else {
                head
            }
        },
        None => head,
    }
}

fn broken_lines(bs: &Vec<(String, usize, String)>) -> (r: Vec<String>)
    ensures
        string_views(r@) == broken_report(broken_view(bs@)),
{
    proof {
        reveal_strlit("BROKEN REFERENCES AFTER REWRITE (");
        reveal_strlit("):");
        reveal_strlit("  ");
        reveal_strlit(":");
        reveal_strlit(" \u{2192} ");
        reveal_strlit("  (not found)");
        reveal_strlit("Rolled back. No changes applied.");
    }
    let ghost bv = broken_view(bs@);
    let mut out: Vec<String> = Vec::new();
    out.push(String::new());
    let mut head = "BROKEN REFERENCES AFTER REWRITE (".to_owned();
    push_decimal(&mut head, bs.len());
    head.append("):");
    out.push(head);
    let ghost start = string_views(out@);
    let mut i: usize = 0;
    while i < bs.len()
        invariant
            bv == broken_view(bs@),
            i <= bs@.len(),
            string_views(out@) == start + bv.take(i as int).map_values(|b: (Seq<char>, nat, Seq<char>)| broken_line(b)),
        decreases bs@.len() - i,
    {
        let b = &bs[i];
        let mut l = "  ".to_owned();
        l.append(b.0.as_str());
        l.append(":");
        push_decimal(&mut l, b.1);
        l.append(" \u{2192} ");
        l.append(b.2.as_str());
        l.append("  (not found)");
        let ghost ov = string_views(out@);
        out.push(l);
        assert(bv[i as int] == (b.0@, b.1 as nat, b.2@));
        assert(bv.take(i + 1).map_values(|b: (Seq<char>, nat, Seq<char>)| broken_line(b)) =~= bv.take(i as int).map_values(
            |b: (Seq<char>, nat, Seq<char>)| broken_line(b),
        ).push(broken_line(bv[i as int])));
        assert(string_views(out@) =~= ov.push(l@));
        i = i + 1;
    }
    assert(bv.take(i as int) =~= bv);
    let ghost mid = string_views(out@);
    out.push(String::new());
    out.push("Rolled back. No changes applied.".to_owned());
    assert(string_views(out@) =~= mid + seq![Seq::<char>::empty(), "Rolled back. No changes applied."@]);
    out
}

/// Whether `ev` answers the step that `s` waits for, as `mv_step` needs.
pub fn mv_event_fits_exec(s: &MvState, ev: &MvEvent) -> (r: bool)
    ensures
        r == mv_event_fits(mv_state_view(*s), mv_event_view(*ev)),
{
    match s {
        MvState::Start(_) => matches!(ev, MvEvent::Begin),
        MvState::SrcAtRoot { .. } => matches!(ev, MvEvent::Exists(_)),
        MvState::SrcAtCwd { .. } => matches!(ev, MvEvent::Exists(_)),
        MvState::Suggesting { req } => matches!(ev, MvEvent::Files(_)) && req.src.as_str().as_bytes().len() < usize::MAX,
        MvState::DstCheck { .. } => matches!(ev, MvEvent::Exists(_)),
        MvState::Transacting { .. } => matches!(ev, MvEvent::TxDone(_)),
        MvState::Finishing { .. } => matches!(ev, MvEvent::PostCommit { .. }),
        MvState::Finished => false,
    }
}

/// The step after the report `ev` in state `s`: the new state, the lines to
/// print and the next outside step, as `mv_next` states them.
pub fn mv_step(s: MvState, ev: MvEvent) -> (r: MvStep)
    requires
        mv_event_fits(mv_state_view(s), mv_event_view(ev)),
    ensures
        mv_step_view(r) == mv_next(
            mv_state_view(s),
            mv_event_view(ev),
            match ev {
                MvEvent::Files(v) => v@,
                _ => Seq::<String>::empty(),
            },
        ),
{
    proof {
        reveal_strlit("error: --verbose and --format are mutually exclusive");
        reveal_strlit("dst already exists: ");
        reveal_strlit("file mv ");
        reveal_strlit(" ");
        reveal_strlit("error: lock error: ");
        reveal_strlit("error: scanner error: ");
        reveal_strlit("error: transaction error: ");
        reveal_strlit("error: workspace not initialized. Run 'anchor init' first.");
        reveal_strlit("error: temp error: ");
        reveal_strlit("error during apply: ");
        reveal_strlit("error during validate: ");
        reveal_strlit("error during commit: ");
        reveal_strlit(" non-markdown file(s) updated.");
        reveal_strlit("note: 0 markdown refs rewritten. ");
        reveal_strlit(" plain-text occurrence(s) of '");
        reveal_strlit("' in .md files were not rewritten.");
        reveal_strlit("Moved. Rewrote ");
        reveal_strlit(" references in ");
        reveal_strlit(" files.");
        reveal_strlit("anchor file mv \"");
        reveal_strlit("\" ");
    }
    match s {
        MvState::Start(req) => {
            if req.verbose && req.format_given {
                return stop_step(1, "error: --verbose and --format are mutually exclusive".to_owned());
            }
            let dst = resolve_dst(req.root.as_str(), req.dst.as_str(), &req.cwd);
            let rel = normalize_exec(req.root.as_str(), req.src.as_str());
            let at = path_join(req.root.as_str(), rel.as_str());
            go(MvState::SrcAtRoot { req, dst, rel }, MvAction::CheckExists(at))
        },
        MvState::SrcAtRoot { req, dst, rel } => match ev {
            MvEvent::Exists(b) => if b {
                let at = path_join(req.root.as_str(), dst.as_str());
                go(MvState::DstCheck { req, src: rel, dst }, MvAction::CheckExists(at))
            } else {
                match &req.cwd {
                    Some(c) => {
                        let abs = path_join(c.as_str(), req.src.as_str());
                        let abs2 = path_join(c.as_str(), req.src.as_str());
                        go(MvState::SrcAtCwd { req, dst, abs }, MvAction::CheckExists(abs2))
                    },
                    None => go(MvState::Suggesting { req }, MvAction::ListFiles),
                }
            },
            _ => stop_step(2, String::new()),
        },
        MvState::SrcAtCwd { req, dst, abs } => match ev {
            MvEvent::Exists(b) => {
                let found = if b {
                    under_root_exec(abs.as_str(), req.root.as_str())
                } else {
                    None
                };
                match found {
                    Some(rel) => {
                        let at = path_join(req.root.as_str(), dst.as_str());
                        go(MvState::DstCheck { req, src: rel, dst }, MvAction::CheckExists(at))
                    },
                    None => go(MvState::Suggesting { req }, MvAction::ListFiles),
                }
            },
            _ => stop_step(2, String::new()),
        },
        MvState::Suggesting { req } => match ev {
            MvEvent::Files(files) => {
                let sug = suggest_similar(req.src.as_str(), files.as_slice());
                let ghost sv = sug@.map_values(|s: String| s@);
                let cmd: Option<String> = if sug.len() > 0 {
                    let mut c = "anchor file mv \"".to_owned();
                    c.append(sug[0].as_str());
                    c.append("\" ");
                    c.append(req.dst.as_str());
                    Some(c)
                } else {
                    None
                };
                let text = match &cmd {
                    Some(c) => format_suggestions(req.src.as_str(), sug.as_slice(), Some(c.as_str())),
                    None => format_suggestions(req.src.as_str(), sug.as_slice(), None),
                };
                assert(opt_view(cmd) == corrected(sv, req.dst@));
                let hint = src_hint_exec(&req);
                let mut err: Vec<String> = Vec::new();
                err.push(text);
                err.push(hint);
                let out: Vec<String> = Vec::new();
                assert(string_views(err@) =~= seq![
                    suggestions_text(req.src@, sv, corrected(sv, req.dst@)),
                    src_hint(req_view(req)),
                ]);
                assert(string_views(out@) =~= Seq::<Seq<char>>::empty());
                MvStep { state: MvState::Finished, err, out, action: MvAction::Exit { code: 1, json: None } }
            },
            _ => stop_step(2, String::new()),
        },
        MvState::DstCheck { req, src, dst } => match ev {
            MvEvent::Exists(b) => if b {
                stop_step(1, prefixed("dst already exists: ", req.dst.as_str()))
            } else {
                let mut op = "file mv ".to_owned();
                op.append(src.as_str());
                op.append(" ");
                op.append(dst.as_str());
                let s2 = src.clone();
                let d2 = dst.clone();
                go(MvState::Transacting { req, src, dst }, MvAction::Transact { src: s2, dst: d2, lock_op: op })
            },
            _ => stop_step(2, String::new()),
        },
        MvState::Transacting { req, src, dst } => match ev {
            MvEvent::TxDone(t) => match t {
                TxOutcome::LockFailed(e) => stop_step(2, prefixed("error: lock error: ", e.as_str())),
                TxOutcome::ScanFailed(e) => stop_step(2, prefixed("error: scanner error: ", e.as_str())),
                TxOutcome::TransactionFailed(e) => stop_step(2, prefixed("error: transaction error: ", e.as_str())),
                TxOutcome::NotInitialized => stop_step(
                    2,
                    "error: workspace not initialized. Run 'anchor init' first.".to_owned(),
                ),
                TxOutcome::TempFailed(e) => stop_step(2, prefixed("error: temp error: ", e.as_str())),
                TxOutcome::ApplyFailed(e) => stop_step(2, prefixed("error during apply: ", e.as_str())),
                TxOutcome::Broken(bs) => {
                    let err = broken_lines(&bs);
                    let out: Vec<String> = Vec::new();
                    assert(string_views(out@) =~= Seq::<Seq<char>>::empty());
                    MvStep { state: MvState::Finished, err, out, action: MvAction::Exit { code: 1, json: None } }
                },
                TxOutcome::ValidateFailed(e) => stop_step(2, prefixed("error during validate: ", e.as_str())),
                TxOutcome::CommitFailed(e) => stop_step(2, prefixed("error during commit: ", e.as_str())),
                TxOutcome::Committed { refs, files } => {
                    let s2 = src.clone();
                    let d2 = dst.clone();
                    go(MvState::Finishing { req, src, dst, refs, files }, MvAction::PostCommit { src: s2, dst: d2 })
                },
            },
            _ => stop_step(2, String::new()),
        },
        MvState::Finishing { req, src, dst, refs, files } => match ev {
            MvEvent::PostCommit { non_md, plaintext } => {
                let mut err: Vec<String> = Vec::new();
                if non_md > 0 {
                    let mut l = String::new();
                    push_decimal(&mut l, non_md);
                    l.append(" non-markdown file(s) updated.");
                    err.push(l);
                }
                let ghost e1 = string_views(err@);
                if refs == 0 && plaintext > 0 {
                    let mut l = "note: 0 markdown refs rewritten. ".to_owned();
                    push_decimal(&mut l, plaintext);
                    l.append(" plain-text occurrence(s) of '");
                    l.append(src.as_str());
                    l.append("' in .md files were not rewritten.");
                    err.push(l);
                }
                let mut out: Vec<String> = Vec::new();
                if req.verbose {
                    let mut l = "Moved. Rewrote ".to_owned();
                    push_decimal(&mut l, refs);
                    l.append(" references in ");
                    push_decimal(&mut l, files);
                    l.append(" files.");
                    out.push(l);
                }
                let ghost want = finish(
                    req_view(req),
                    src@,
                    dst@,
                    refs as nat,
                    files as nat,
                    non_md as nat,
                    plaintext as nat,
                );
                let json = if !req.verbose && req.json {
                    Some((src, dst, refs, files))
                } else {
                    None
                };
                assert(string_views(err@) =~= want.1);
                assert(string_views(out@) =~= want.2);
                MvStep { state: MvState::Finished, err, out, action: MvAction::Exit { code: 0, json } }
            },
            _ => stop_step(2, String::new()),
        },
        MvState::Finished => stop_step(2, String::new()),
    }
}

} // verus!
