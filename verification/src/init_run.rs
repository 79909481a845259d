//! The course of `init`: which folder becomes the workspace root (given,
//! detected, or typed in with one retry), what is asked and printed on the
//! way, and whether the files are written fresh or a workspace is
//! re-initialized. Each outside step (a folder check, a detection, a
//! question, the writing) reports back, and the next step follows from it.

use vstd::prelude::*;
use vstd::string::*;
use crate::fmt::{dec, push_decimal};
use crate::init_steps::{
    answer_is, answers, compute_step_total, repo_listing, repo_listing_spec, setup_report, setup_report_spec,
    step_prefix, step_prefix_spec, step_total_spec,
};
use crate::plan_wizard::{file_name, std_file_name};
use crate::suggest::{format_suggestions, suggest_similar, suggestions_spec, suggestions_text};
use crate::text::string_views;

verus! {

broadcast use vstd::seq::group_seq_axioms;

/// What a check of a folder found: it exists and can be written, it does not
/// exist, or it cannot be written.
#[derive(Debug)]
pub enum PathCheck {
    Fine,
    Missing,
    ReadOnly,
}

/// Where a run of `init` stands.
#[derive(Debug)]
pub enum InitState {
    /// Not started; `--yes` and the `--path` given.
    Start { yes: bool, explicit: Option<String> },
    /// Waiting for the check of the folder given with `--path`.
    CheckExplicit { yes: bool, path: String },
    /// The given folder is missing; waiting for the names of the folders beside it.
    Suggesting { path: String },
    /// Waiting for the detection of a candidate from the current folder.
    Detecting { yes: bool },
    /// Waiting for the answer to the workspace-root question.
    AskRoot { candidate: String, total: usize },
    /// Waiting for the check of a typed folder.
    CheckTyped { path: String, total: usize },
    /// Waiting for the second typed folder.
    AskAgain { total: usize },
    /// Waiting for the check of the folder that becomes the root.
    CheckChosen { path: String, total: usize, cur: usize },
    /// Waiting to learn about the folder given with `--path` (its repositories
    /// and whether it is initialized), which sets the number of questions.
    ProbeExplicit { path: String },
    /// Waiting to learn about the chosen folder.
    Probing { chosen: String, total: usize, cur: usize },
    ConfirmNoRepos { chosen: String, total: usize, cur: usize, initialized: bool },
    ConfirmReinit { chosen: String, total: usize, cur: usize },
    ConfirmPlace { chosen: String, total: usize, cur: usize },
    /// Waiting for the files to be written (a re-initialization when `reinit`).
    Writing { chosen: String, reinit: bool },
    Finished,
}

/// What the outside step just done reported.
#[derive(Debug)]
pub enum InitEvent {
    Begin,
    Checked(PathCheck),
    /// The names of the folders beside the missing one, in ascending order.
    Siblings(Vec<String>),
    /// The detected candidate, how many repositories it holds, whether it is
    /// itself a repository, and whether it is initialized.
    Detected { candidate: String, repos: usize, is_repo: bool, initialized: bool },
    /// A line read in answer, without its line ending.
    Answer(String),
    /// The names of the repositories in the folder, in ascending order, and
    /// whether it is initialized.
    Probed { repos: Vec<String>, initialized: bool },
    /// Whether the ignore and acked files were created, or the error.
    Written(Result<(bool, bool), String>),
}

/// How `init` ends.
#[derive(Debug)]
pub enum InitOutcome {
    Done,
    Io(String),
    DirectoryNotFound(String),
    NotWritable(String),
    Aborted,
    NoCandidate,
}

/// The outside step to take next.
#[derive(Debug)]
pub enum InitAction {
    /// Detect a candidate from the current folder.
    Detect,
    /// Check that the folder exists and can be written.
    Check(String),
    /// List the folders beside the given one.
    ListSiblings(String),
    /// Print the text (no line end) and read a line.
    Prompt(String),
    /// Learn about the folder.
    Probe(String),
    /// Write the files of a fresh workspace.
    Init(String),
    /// Rewrite the configuration of an initialized workspace.
    Reinit(String),
    Exit(InitOutcome),
}

/// A step: the new state, the lines to print, the next outside step.
pub struct InitStep {
    pub state: InitState,
    pub out: Vec<String>,
    pub action: InitAction,
}

// ───────────────────────── the model ─────────────────────────

pub enum CheckView {
    Fine,
    Missing,
    ReadOnly,
}

pub enum InitStateView {
    Start(bool, Option<Seq<char>>),
    CheckExplicit(bool, Seq<char>),
    Suggesting(Seq<char>),
    Detecting(bool),
    AskRoot(Seq<char>, nat),
    CheckTyped(Seq<char>, nat),
    AskAgain(nat),
    CheckChosen(Seq<char>, nat, nat),
    ProbeExplicit(Seq<char>),
    Probing(Seq<char>, nat, nat),
    ConfirmNoRepos(Seq<char>, nat, nat, bool),
    ConfirmReinit(Seq<char>, nat, nat),
    ConfirmPlace(Seq<char>, nat, nat),
    Writing(Seq<char>, bool),
    Finished,
}

pub enum InitEventView {
    Begin,
    Checked(CheckView),
    Siblings(Seq<Seq<char>>),
    Detected(Seq<char>, nat, bool, bool),
    Answer(Seq<char>),
    Probed(Seq<Seq<char>>, bool),
    Written(Result<(bool, bool), Seq<char>>),
}

pub enum OutcomeView {
    Done,
    Io(Seq<char>),
    DirectoryNotFound(Seq<char>),
    NotWritable(Seq<char>),
    Aborted,
    NoCandidate,
}

pub enum InitActionView {
    Detect,
    Check(Seq<char>),
    ListSiblings(Seq<char>),
    Prompt(Seq<char>),
    Probe(Seq<char>),
    Init(Seq<char>),
    Reinit(Seq<char>),
    Exit(OutcomeView),
}

pub open spec fn check_view(c: PathCheck) -> CheckView {
    match c {
        PathCheck::Fine => CheckView::Fine,
        PathCheck::Missing => CheckView::Missing,
        PathCheck::ReadOnly => CheckView::ReadOnly,
    }
}

pub open spec fn opt_view(o: Option<String>) -> Option<Seq<char>> {
    match o {
        Some(s) => Some(s@),
        None => None,
    }
}

pub open spec fn init_state_view(s: InitState) -> InitStateView {
    match s {
        InitState::Start { yes, explicit } => InitStateView::Start(yes, opt_view(explicit)),
        InitState::CheckExplicit { yes, path } => InitStateView::CheckExplicit(yes, path@),
        InitState::Suggesting { path } => InitStateView::Suggesting(path@),
        InitState::Detecting { yes } => InitStateView::Detecting(yes),
        InitState::AskRoot { candidate, total } => InitStateView::AskRoot(candidate@, total as nat),
        InitState::CheckTyped { path, total } => InitStateView::CheckTyped(path@, total as nat),
        InitState::AskAgain { total } => InitStateView::AskAgain(total as nat),
        InitState::CheckChosen { path, total, cur } => InitStateView::CheckChosen(path@, total as nat, cur as nat),
        InitState::ProbeExplicit { path } => InitStateView::ProbeExplicit(path@),
        InitState::Probing { chosen, total, cur } => InitStateView::Probing(chosen@, total as nat, cur as nat),
        InitState::ConfirmNoRepos { chosen, total, cur, initialized } => InitStateView::ConfirmNoRepos(
            chosen@,
            total as nat,
            cur as nat,
            initialized,
        ),
        InitState::ConfirmReinit { chosen, total, cur } => InitStateView::ConfirmReinit(chosen@, total as nat, cur as nat),
        InitState::ConfirmPlace { chosen, total, cur } => InitStateView::ConfirmPlace(chosen@, total as nat, cur as nat),
        InitState::Writing { chosen, reinit } => InitStateView::Writing(chosen@, reinit),
        InitState::Finished => InitStateView::Finished,
    }
}

pub open spec fn init_event_view(e: InitEvent) -> InitEventView {
    match e {
        InitEvent::Begin => InitEventView::Begin,
        InitEvent::Checked(c) => InitEventView::Checked(check_view(c)),
        InitEvent::Siblings(v) => InitEventView::Siblings(string_views(v@)),
        InitEvent::Detected { candidate, repos, is_repo, initialized } => InitEventView::Detected(
            candidate@,
            repos as nat,
            is_repo,
            initialized,
        ),
        InitEvent::Answer(a) => InitEventView::Answer(a@),
        InitEvent::Probed { repos, initialized } => InitEventView::Probed(string_views(repos@), initialized),
        InitEvent::Written(r) => InitEventView::Written(
            match r {
                Ok(p) => Ok(p),
                Err(e) => Err(e@),
            },
        ),
    }
}

pub open spec fn outcome_view(o: InitOutcome) -> OutcomeView {
    match o {
        InitOutcome::Done => OutcomeView::Done,
        InitOutcome::Io(e) => OutcomeView::Io(e@),
        InitOutcome::DirectoryNotFound(p) => OutcomeView::DirectoryNotFound(p@),
        InitOutcome::NotWritable(p) => OutcomeView::NotWritable(p@),
        InitOutcome::Aborted => OutcomeView::Aborted,
        InitOutcome::NoCandidate => OutcomeView::NoCandidate,
    }
}

pub open spec fn init_action_view(a: InitAction) -> InitActionView {
    match a {
        InitAction::Detect => InitActionView::Detect,
        InitAction::Check(p) => InitActionView::Check(p@),
        InitAction::ListSiblings(p) => InitActionView::ListSiblings(p@),
        InitAction::Prompt(t) => InitActionView::Prompt(t@),
        InitAction::Probe(p) => InitActionView::Probe(p@),
        InitAction::Init(p) => InitActionView::Init(p@),
        InitAction::Reinit(p) => InitActionView::Reinit(p@),
        InitAction::Exit(o) => InitActionView::Exit(outcome_view(o)),
    }
}

/// The event answers the step the state waits for; the question numbers stay small.
pub open spec fn init_event_fits(s: InitStateView, ev: InitEventView) -> bool {
    match s {
        InitStateView::Start(..) => ev is Begin,
        InitStateView::CheckExplicit(..) => ev is Checked,
        InitStateView::Suggesting(..) => ev is Siblings,
        InitStateView::Detecting(..) => ev is Detected,
        InitStateView::AskRoot(_, t) => ev is Answer && t <= 4,
        InitStateView::CheckTyped(_, t) => ev is Checked && t <= 4,
        InitStateView::AskAgain(t) => ev is Answer && t <= 4,
        InitStateView::CheckChosen(_, t, c) => ev is Checked && t <= 4 && c <= 4,
        InitStateView::ProbeExplicit(..) => ev is Probed,
        InitStateView::Probing(_, t, c) => ev is Probed && t <= 4 && c <= 4,
        InitStateView::ConfirmNoRepos(_, t, c, _) => ev is Answer && t <= 4 && c <= 4,
        InitStateView::ConfirmReinit(_, t, c) => ev is Answer && t <= 4 && c <= 4,
        InitStateView::ConfirmPlace(_, t, c) => ev is Answer && t <= 4 && c <= 4,
        InitStateView::Writing(..) => ev is Written,
        InitStateView::Finished => false,
    }
}

pub open spec fn exit_with(o: OutcomeView) -> (InitStateView, Seq<Seq<char>>, InitActionView) {
    (InitStateView::Finished, seq![], InitActionView::Exit(o))
}

/// After the repositories: the re-initialization question or the placement
/// question (or straight to writing when nothing is asked).
pub open spec fn after_repos(chosen: Seq<char>, total: nat, cur: nat, initialized: bool) -> (InitStateView, Seq<Seq<char>>, InitActionView) {
    if initialized {
        if total > 0 {
            (
                InitStateView::ConfirmReinit(chosen, total, cur),
                seq![],
                InitActionView::Prompt(
                    step_prefix_spec(cur, total) + "Already initialized at "@ + chosen + ". Reinitialize? [y/N]: "@,
                ),
            )
        } else {
            (InitStateView::Writing(chosen, true), seq![], InitActionView::Reinit(chosen))
        }
    } else {
        if total > 0 {
            (
                InitStateView::ConfirmPlace(chosen, total, cur),
                seq![],
                InitActionView::Prompt(step_prefix_spec(cur, total) + "Place .accelmars/ here? [Y/n]: "@),
            )
        } else {
            (InitStateView::Writing(chosen, false), seq![], InitActionView::Init(chosen))
        }
    }
}

/// What follows learning about the chosen folder: its listing (when
/// questions are asked), then the no-repository question when it holds none.
pub open spec fn after_probe(chosen: Seq<char>, total: nat, cur: nat, repos: Seq<Seq<char>>, initialized: bool) -> (InitStateView, Seq<Seq<char>>, InitActionView) {
    let lines = if total > 0 {
        repo_listing_spec(chosen, repos)
    } else {
        seq![]
    };
    if repos.len() == 0 && total > 0 {
        (
            InitStateView::ConfirmNoRepos(chosen, total, cur, initialized),
            lines,
            InitActionView::Prompt(
                step_prefix_spec(cur, total) + "No git repos found here. Continue anyway? [y/N]: "@,
            ),
        )
    } else {
        let (s, l, a) = after_repos(chosen, total, cur, initialized);
        (s, lines + l, a)
    }
}

/// The name a missing folder is called by in the suggestions.
pub open spec fn missing_name(path: Seq<char>) -> Seq<char> {
    match std_file_name(path) {
        Some(n) => n,
        None => path,
    }
}

/// The message for a missing folder, with the folders beside it that are close.
pub open spec fn missing_message(path: Seq<char>, siblings: Seq<Seq<char>>, sib: Seq<String>) -> Seq<char> {
    let name = missing_name(path);
    if vstd::utf8::encode_utf8(name).len() < usize::MAX {
        suggestions_text(name, suggestions_spec(vstd::utf8::encode_utf8(name), sib), None)
    } else {
        suggestions_text(name, seq![], None)
    }
}

pub open spec fn detect_lines(candidate: Seq<char>, repos: nat) -> Seq<Seq<char>> {
    seq![
        seq![],
        "Detecting workspace root..."@,
        "  Candidate: "@ + candidate + "  (contains "@ + dec(repos) + " git repos)"@,
        seq![],
    ]
}

pub open spec fn not_found_line(p: Seq<char>) -> Seq<char> {
    "Directory not found: "@ + p
}

pub open spec fn read_only_line(p: Seq<char>) -> Seq<char> {
    "Cannot write to "@ + p + " \u{2014} check permissions"@
}

/// The next state, the lines to print and the next step after `ev` in `s`.
/// `sib` is the exec list behind a `Siblings` event (its view is in `ev`).
pub open spec fn init_next(s: InitStateView, ev: InitEventView, sib: Seq<String>) -> (InitStateView, Seq<Seq<char>>, InitActionView) {
    match (s, ev) {
        (InitStateView::Start(yes, explicit), _) => match explicit {
            Some(p) => (InitStateView::CheckExplicit(yes, p), seq![], InitActionView::Check(p)),
            None => (InitStateView::Detecting(yes), seq![], InitActionView::Detect),
        },
        (InitStateView::CheckExplicit(yes, p), InitEventView::Checked(c)) => match c {
            CheckView::Missing => (InitStateView::Suggesting(p), seq![], InitActionView::ListSiblings(p)),
            CheckView::ReadOnly => exit_with(OutcomeView::NotWritable(p)),
            CheckView::Fine => if yes {
                (InitStateView::Probing(p, 0, 1), seq![], InitActionView::Probe(p))
            } else {
                (InitStateView::ProbeExplicit(p), seq![], InitActionView::Probe(p))
            },
        },
        (InitStateView::Suggesting(p), InitEventView::Siblings(_)) => (
            InitStateView::Finished,
            seq![missing_message(p, string_views(sib), sib)],
            InitActionView::Exit(OutcomeView::DirectoryNotFound(p)),
        ),
        (InitStateView::Detecting(yes), InitEventView::Detected(c, n, is_repo, initialized)) => if yes {
            if is_repo || n == 0 {
                exit_with(OutcomeView::NoCandidate)
            } else {
                (InitStateView::CheckChosen(c, 0, 1), seq![], InitActionView::Check(c))
            }
        } else {
            let total = step_total_spec(true, n == 0, initialized) as nat;
            (
                InitStateView::AskRoot(c, total),
                detect_lines(c, n),
                InitActionView::Prompt(step_prefix_spec(1, total) + "Workspace root ["@ + c + "]: "@),
            )
        },
        (InitStateView::AskRoot(c, total), InitEventView::Answer(a)) => if a.len() == 0 {
            (InitStateView::CheckChosen(c, total, 2), seq![], InitActionView::Check(c))
        } else {
            (InitStateView::CheckTyped(a, total), seq![], InitActionView::Check(a))
        },
        (InitStateView::CheckTyped(p, total), InitEventView::Checked(c)) => match c {
            CheckView::Fine => (InitStateView::Probing(p, total, 2), seq![], InitActionView::Probe(p)),
            CheckView::Missing => (
                InitStateView::AskAgain(total),
                seq![not_found_line(p)],
                InitActionView::Prompt("Enter a different path: "@),
            ),
            CheckView::ReadOnly => (
                InitStateView::AskAgain(total),
                seq![read_only_line(p)],
                InitActionView::Prompt("Enter a different path: "@),
            ),
        },
        (InitStateView::AskAgain(total), InitEventView::Answer(a)) => (
            InitStateView::CheckChosen(a, total, 2),
            seq![],
            InitActionView::Check(a),
        ),
        (InitStateView::CheckChosen(p, total, cur), InitEventView::Checked(c)) => match c {
            CheckView::Fine => (InitStateView::Probing(p, total, cur), seq![], InitActionView::Probe(p)),
            CheckView::Missing => exit_with(OutcomeView::DirectoryNotFound(p)),
            CheckView::ReadOnly => exit_with(OutcomeView::NotWritable(p)),
        },
        (InitStateView::ProbeExplicit(p), InitEventView::Probed(repos, initialized)) => after_probe(
            p,
            step_total_spec(false, repos.len() == 0, initialized) as nat,
            1,
            repos,
            initialized,
        ),
        (InitStateView::Probing(p, total, cur), InitEventView::Probed(repos, initialized)) => after_probe(
            p,
            total,
            cur,
            repos,
            initialized,
        ),
        (InitStateView::ConfirmNoRepos(p, total, cur, initialized), InitEventView::Answer(a)) => if answers(a, 'y') {
            after_repos(p, total, cur + 1, initialized)
        } else {
            exit_with(OutcomeView::Aborted)
        },
        (InitStateView::ConfirmReinit(p, total, cur), InitEventView::Answer(a)) => if answers(a, 'y') {
            (
                InitStateView::Writing(p, true),
                seq![step_prefix_spec(cur + 1, total) + "Writing workspace files..."@],
                InitActionView::Reinit(p),
            )
        } else {
            exit_with(OutcomeView::Aborted)
        },
        (InitStateView::ConfirmPlace(p, total, cur), InitEventView::Answer(a)) => if answers(a, 'n') {
            exit_with(OutcomeView::Aborted)
        } else {
            (InitStateView::Writing(p, false), seq![], InitActionView::Init(p))
        },
        (InitStateView::Writing(p, reinit), InitEventView::Written(r)) => match r {
            Ok(created) => (
                InitStateView::Finished,
                setup_report_spec(reinit, created.0, created.1, p),
                InitActionView::Exit(OutcomeView::Done),
            ),
            Err(e) => exit_with(OutcomeView::Io(e)),
        },
        _ => exit_with(OutcomeView::Aborted),
    }
}

pub open spec fn init_step_view(r: InitStep) -> (InitStateView, Seq<Seq<char>>, InitActionView) {
    (init_state_view(r.state), string_views(r.out@), init_action_view(r.action))
}

// ───────────────────────── the steps ─────────────────────────

/// Whether `ev` answers the step that `s` waits for (and the question
/// numbers are small), as `init_step` needs.
pub fn init_event_fits_exec(s: &InitState, ev: &InitEvent) -> (r: bool)
    ensures
        r == init_event_fits(init_state_view(*s), init_event_view(*ev)),
{
    match s {
        InitState::Start { .. } => matches!(ev, InitEvent::Begin),
        InitState::CheckExplicit { .. } => matches!(ev, InitEvent::Checked(_)),
        InitState::Suggesting { .. } => matches!(ev, InitEvent::Siblings(_)),
        InitState::Detecting { .. } => matches!(ev, InitEvent::Detected { .. }),
        InitState::AskRoot { total, .. } => matches!(ev, InitEvent::Answer(_)) && *total <= 4,
        InitState::CheckTyped { total, .. } => matches!(ev, InitEvent::Checked(_)) && *total <= 4,
        InitState::AskAgain { total } => matches!(ev, InitEvent::Answer(_)) && *total <= 4,
        InitState::CheckChosen { total, cur, .. } => matches!(ev, InitEvent::Checked(_)) && *total <= 4 && *cur <= 4,
        InitState::ProbeExplicit { .. } => matches!(ev, InitEvent::Probed { .. }),
        InitState::Probing { total, cur, .. } => matches!(ev, InitEvent::Probed { .. }) && *total <= 4 && *cur <= 4,
        InitState::ConfirmNoRepos { total, cur, .. } => matches!(ev, InitEvent::Answer(_)) && *total <= 4 && *cur <= 4,
        InitState::ConfirmReinit { total, cur, .. } => matches!(ev, InitEvent::Answer(_)) && *total <= 4 && *cur <= 4,
        InitState::ConfirmPlace { total, cur, .. } => matches!(ev, InitEvent::Answer(_)) && *total <= 4 && *cur <= 4,
        InitState::Writing { .. } => matches!(ev, InitEvent::Written(_)),
        InitState::Finished => false,
    }
}

fn exit_step(o: InitOutcome) -> (r: InitStep)
    ensures
        init_step_view(r) == exit_with(outcome_view(o)),
{
    let out: Vec<String> = Vec::new();
    assert(string_views(out@) =~= Seq::<Seq<char>>::empty());
    InitStep { state: InitState::Finished, out, action: InitAction::Exit(o) }
}

fn after_repos_exec(chosen: String, total: usize, cur: usize, initialized: bool) -> (r: InitStep)
    requires
        total <= 4,
        cur <= 5,
    ensures
        init_step_view(r) == after_repos(chosen@, total as nat, cur as nat, initialized),
{
    proof {
        reveal_strlit("Already initialized at ");
        reveal_strlit(". Reinitialize? [y/N]: ");
        reveal_strlit("Place .accelmars/ here? [Y/n]: ");
    }
    let out: Vec<String> = Vec::new();
    assert(string_views(out@) =~= Seq::<Seq<char>>::empty());
    if initialized {
        if total > 0 {
            let mut t = step_prefix(cur, total);
            t.append("Already initialized at ");
            t.append(chosen.as_str());
            t.append(". Reinitialize? [y/N]: ");
            InitStep { state: InitState::ConfirmReinit { chosen, total, cur }, out, action: InitAction::Prompt(t) }
        } else {
            let c2 = chosen.clone();
            InitStep { state: InitState::Writing { chosen, reinit: true }, out, action: InitAction::Reinit(c2) }
        }
    } else {
        if total > 0 {
            let mut t = step_prefix(cur, total);
            t.append("Place .accelmars/ here? [Y/n]: ");
            InitStep { state: InitState::ConfirmPlace { chosen, total, cur }, out, action: InitAction::Prompt(t) }
        } else {
            let c2 = chosen.clone();
            InitStep { state: InitState::Writing { chosen, reinit: false }, out, action: InitAction::Init(c2) }
        }
    }
}

fn after_probe_exec(chosen: String, total: usize, cur: usize, repos: &Vec<String>, initialized: bool) -> (r: InitStep)
    requires
        total <= 4,
        cur <= 4,
    ensures
        init_step_view(r) == after_probe(chosen@, total as nat, cur as nat, string_views(repos@), initialized),
{
    proof {
        reveal_strlit("No git repos found here. Continue anyway? [y/N]: ");
    }
    let lines: Vec<String> = if total > 0 {
        repo_listing(chosen.as_str(), repos)
    } else {
        Vec::new()
    };
    assert(string_views(lines@) =~= (if total > 0 {
        repo_listing_spec(chosen@, string_views(repos@))
    } else {
        Seq::<Seq<char>>::empty()
    }));
    if repos.len() == 0 && total > 0 {
        let mut t = step_prefix(cur, total);
        t.append("No git repos found here. Continue anyway? [y/N]: ");
        InitStep { state: InitState::ConfirmNoRepos { chosen, total, cur, initialized }, out: lines, action: InitAction::Prompt(t) }
    } else {
        let next = after_repos_exec(chosen, total, cur, initialized);
        let InitStep { state, out, action } = next;
        let mut all = lines;
        let ghost lv = string_views(all@);
        let mut more = out;
        all.append(&mut more);
        assert(string_views(all@) =~= lv + string_views(out@));
        InitStep { state, out: all, action }
    }
}

fn missing_message_exec(path: &str, siblings: &Vec<String>) -> (r: String)
    ensures
        r@ == missing_message(path@, string_views(siblings@), siblings@),
{
    let name = match file_name(path) {
        Some(n) => n,
        None => path.to_owned(),
    };
    let empty: Vec<String> = Vec::new();
    if name.as_str().as_bytes().len() < usize::MAX {
        let found = suggest_similar(name.as_str(), siblings.as_slice());
        assert(found@.map_values(|s: String| s@) == string_views(found@));
        format_suggestions(name.as_str(), found.as_slice(), None)
    } else {
        assert(empty@.map_values(|s: String| s@) =~= Seq::<Seq<char>>::empty());
        format_suggestions(name.as_str(), empty.as_slice(), None)
    }
}

/// The step after the report `ev` in state `s`: the new state, the lines to
/// print and the next outside step, as `init_next` states them.
pub fn init_step(s: InitState, ev: InitEvent) -> (r: InitStep)
    requires
        init_event_fits(init_state_view(s), init_event_view(ev)),
    ensures
        init_step_view(r) == init_next(
            init_state_view(s),
            init_event_view(ev),
            match ev {
                InitEvent::Siblings(v) => v@,
                _ => Seq::<String>::empty(),
            },
        ),
{
    proof {
        reveal_strlit("Detecting workspace root...");
        reveal_strlit("  Candidate: ");
        reveal_strlit("  (contains ");
        reveal_strlit(" git repos)");
        reveal_strlit("Workspace root [");
        reveal_strlit("]: ");
        reveal_strlit("Directory not found: ");
        reveal_strlit("Cannot write to ");
        reveal_strlit(" \u{2014} check permissions");
        reveal_strlit("Enter a different path: ");
        reveal_strlit("Writing workspace files...");
        reveal_strlit("");
    }
    let none: Vec<String> = Vec::new();
    assert(string_views(none@) =~= Seq::<Seq<char>>::empty());
    match s {
        InitState::Start { yes, explicit } => match explicit {
            Some(p) => {
                let p2 = p.clone();
                InitStep { state: InitState::CheckExplicit { yes, path: p }, out: none, action: InitAction::Check(p2) }
            },
            None => InitStep { state: InitState::Detecting { yes }, out: none, action: InitAction::Detect },
        },
        InitState::CheckExplicit { yes, path } => match ev {
            InitEvent::Checked(c) => match c {
                PathCheck::Missing => {
                    let p2 = path.clone();
                    InitStep { state: InitState::Suggesting { path }, out: none, action: InitAction::ListSiblings(p2) }
                },
                PathCheck::ReadOnly => exit_step(InitOutcome::NotWritable(path)),
                PathCheck::Fine => {
                    let p2 = path.clone();
                    if yes {
                        InitStep { state: InitState::Probing { chosen: path, total: 0, cur: 1 }, out: none, action: InitAction::Probe(p2) }
                    } else {
                        InitStep { state: InitState::ProbeExplicit { path }, out: none, action: InitAction::Probe(p2) }
                    }
                },
            },
            _ => exit_step(InitOutcome::Aborted),
        },
        InitState::Suggesting { path } => match ev {
            InitEvent::Siblings(names) => {
                let msg = missing_message_exec(path.as_str(), &names);
                let mut out: Vec<String> = Vec::new();
                out.push(msg);
                assert(string_views(out@) =~= seq![missing_message(path@, string_views(names@), names@)]);
                InitStep { state: InitState::Finished, out, action: InitAction::Exit(InitOutcome::DirectoryNotFound(path)) }
            },
            _ => exit_step(InitOutcome::Aborted),
        },
        InitState::Detecting { yes } => match ev {
            InitEvent::Detected { candidate, repos, is_repo, initialized } => if yes {
                if is_repo || repos == 0 {
                    exit_step(InitOutcome::NoCandidate)
                } else {
                    let c2 = candidate.clone();
                    InitStep { state: InitState::CheckChosen { path: candidate, total: 0, cur: 1 }, out: none, action: InitAction::Check(c2) }
                }
            } else {
                let total = compute_step_total(true, repos == 0, initialized);
                let mut out: Vec<String> = Vec::new();
                out.push(String::new());
                out.push("Detecting workspace root...".to_owned());
                let mut l = "  Candidate: ".to_owned();
                l.append(candidate.as_str());
                l.append("  (contains ");
                push_decimal(&mut l, repos);
                l.append(" git repos)");
                out.push(l);
                out.push(String::new());
                assert(string_views(out@) =~= detect_lines(candidate@, repos as nat));
                let mut t = step_prefix(1, total);
                t.append("Workspace root [");
                t.append(candidate.as_str());
                t.append("]: ");
                InitStep { state: InitState::AskRoot { candidate, total }, out, action: InitAction::Prompt(t) }
            },
            _ => exit_step(InitOutcome::Aborted),
        },
        InitState::AskRoot { candidate, total } => match ev {
            InitEvent::Answer(a) => if a.unicode_len() == 0 {
                let c2 = candidate.clone();
                InitStep { state: InitState::CheckChosen { path: candidate, total, cur: 2 }, out: none, action: InitAction::Check(c2) }
            } else {
                let a2 = a.clone();
                InitStep { state: InitState::CheckTyped { path: a, total }, out: none, action: InitAction::Check(a2) }
            },
            _ => exit_step(InitOutcome::Aborted),
        },
        InitState::CheckTyped { path, total } => match ev {
            InitEvent::Checked(c) => match c {
                PathCheck::Fine => {
                    let p2 = path.clone();
                    InitStep { state: InitState::Probing { chosen: path, total, cur: 2 }, out: none, action: InitAction::Probe(p2) }
                },
                PathCheck::Missing => {
                    let mut l = "Directory not found: ".to_owned();
                    l.append(path.as_str());
                    let mut out: Vec<String> = Vec::new();
                    out.push(l);
                    assert(string_views(out@) =~= seq![not_found_line(path@)]);
                    InitStep { state: InitState::AskAgain { total }, out, action: InitAction::Prompt("Enter a different path: ".to_owned()) }
                },
                PathCheck::ReadOnly => {
                    let mut l = "Cannot write to ".to_owned();
                    l.append(path.as_str());
                    l.append(" \u{2014} check permissions");
                    let mut out: Vec<String> = Vec::new();
                    out.push(l);
                    assert(string_views(out@) =~= seq![read_only_line(path@)]);
                    InitStep { state: InitState::AskAgain { total }, out, action: InitAction::Prompt("Enter a different path: ".to_owned()) }
                },
            },
            _ => exit_step(InitOutcome::Aborted),
        },
        InitState::AskAgain { total } => match ev {
            InitEvent::Answer(a) => {
                let a2 = a.clone();
                InitStep { state: InitState::CheckChosen { path: a, total, cur: 2 }, out: none, action: InitAction::Check(a2) }
            },
            _ => exit_step(InitOutcome::Aborted),
        },
        InitState::CheckChosen { path, total, cur } => match ev {
            InitEvent::Checked(c) => match c {
                PathCheck::Fine => {
                    let p2 = path.clone();
                    InitStep { state: InitState::Probing { chosen: path, total, cur }, out: none, action: InitAction::Probe(p2) }
                },
                PathCheck::Missing => exit_step(InitOutcome::DirectoryNotFound(path)),
                PathCheck::ReadOnly => exit_step(InitOutcome::NotWritable(path)),
            },
            _ => exit_step(InitOutcome::Aborted),
        },
        InitState::ProbeExplicit { path } => match ev {
            InitEvent::Probed { repos, initialized } => {
                let total = compute_step_total(false, repos.len() == 0, initialized);
                after_probe_exec(path, total, 1, &repos, initialized)
            },
            _ => exit_step(InitOutcome::Aborted),
        },
        InitState::Probing { chosen, total, cur } => match ev {
            InitEvent::Probed { repos, initialized } => after_probe_exec(chosen, total, cur, &repos, initialized),
            _ => exit_step(InitOutcome::Aborted),
        },
        InitState::ConfirmNoRepos { chosen, total, cur, initialized } => match ev {
            InitEvent::Answer(a) => if answer_is(a.as_str(), 'y') {
                after_repos_exec(chosen, total, cur + 1, initialized)
            } else {
                exit_step(InitOutcome::Aborted)
            },
            _ => exit_step(InitOutcome::Aborted),
        },
        InitState::ConfirmReinit { chosen, total, cur } => match ev {
            InitEvent::Answer(a) => if answer_is(a.as_str(), 'y') {
                let mut l = step_prefix(cur + 1, total);
                l.append("Writing workspace files...");
                let mut out: Vec<String> = Vec::new();
                out.push(l);
                assert(string_views(out@) =~= seq![
                    step_prefix_spec(cur as nat + 1, total as nat) + "Writing workspace files..."@,
                ]);
                let c2 = chosen.clone();
                InitStep { state: InitState::Writing { chosen, reinit: true }, out, action: InitAction::Reinit(c2) }
            } else {
                exit_step(InitOutcome::Aborted)
            },
            _ => exit_step(InitOutcome::Aborted),
        },
        InitState::ConfirmPlace { chosen, total, cur } => match ev {
            InitEvent::Answer(a) => if answer_is(a.as_str(), 'n') {
                exit_step(InitOutcome::Aborted)
            } else {
                let c2 = chosen.clone();
                InitStep { state: InitState::Writing { chosen, reinit: false }, out: none, action: InitAction::Init(c2) }
            },
            _ => exit_step(InitOutcome::Aborted),
        },
        InitState::Writing { chosen, reinit } => match ev {
            InitEvent::Written(r) => match r {
                Ok(created) => {
                    let out = setup_report(reinit, created.0, created.1, chosen.as_str());
                    InitStep { state: InitState::Finished, out, action: InitAction::Exit(InitOutcome::Done) }
                },
                Err(e) => exit_step(InitOutcome::Io(e)),
            },
            _ => exit_step(InitOutcome::Aborted),
        },
        InitState::Finished => exit_step(InitOutcome::Aborted),
    }
}

} // verus!
