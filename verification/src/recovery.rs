//! The workspace lock and recovery from interrupted operations: whether a
//! lock can be taken, what a stale state is reported as, which staging
//! folders `recover` looks at, and what it does with each.

use vstd::prelude::*;
use vstd::string::*;
use crate::fmt::{dec, push_decimal_u64};
use crate::text::{str_eq, string_views};
use crate::transaction::{starts_with_chars, starts_with_str};

verus! {

broadcast use vstd::seq::group_seq_axioms;

/// What taking the lock comes to.
#[derive(Debug, PartialEq, Eq)]
pub enum LockVerdict {
    /// Another live process holds the lock.
    AlreadyRunning { pid: u32 },
    /// A lock of a dead process, or a staging folder without a lock, is left over.
    Stale { message: String },
    /// Nothing is in the way: the lock may be written.
    Acquire,
}

/// The report of a left-over state; `op_id` names the staging folder found
/// (`?` when none was), and `record` is the name of the record file an
/// operation keeps in its staging folder.
pub open spec fn stale_message_spec(op_id: Option<Seq<char>>, record: Seq<char>) -> Seq<char> {
    "Found incomplete operation in .accelmars/anchor/tmp/.\nThis usually means anchor was killed mid-commit.\n\nInspect: .accelmars/anchor/tmp/op-"@
        + match op_id {
        Some(i) => i,
        None => "?"@,
    } + "/"@ + record + "\nWhen safe, delete .accelmars/anchor/tmp/ and retry."@
}

pub fn stale_message(op_id: Option<&str>, record: &str) -> (r: String)
    ensures
        r@ == stale_message_spec(
            match op_id {
                Some(i) => Some(i@),
                None => None,
            },
            record@,
        ),
{
    proof {
        reveal_strlit("Found incomplete operation in .accelmars/anchor/tmp/.\nThis usually means anchor was killed mid-commit.\n\nInspect: .accelmars/anchor/tmp/op-");
        reveal_strlit("?");
        reveal_strlit("/");
        reveal_strlit("\nWhen safe, delete .accelmars/anchor/tmp/ and retry.");
    }
    let mut s = "Found incomplete operation in .accelmars/anchor/tmp/.\nThis usually means anchor was killed mid-commit.\n\nInspect: .accelmars/anchor/tmp/op-".to_owned();
    match op_id {
        Some(i) => s.append(i),
        None => s.append("?"),
    }
    s.append("/");
    s.append(record);
    s.append("\nWhen safe, delete .accelmars/anchor/tmp/ and retry.");
    s
}

/// Whether the lock can be taken: `holder` is the process named by an
/// existing lock file and whether it is alive; `tmp_exists` tells whether a
/// staging folder exists; `op_id` names the first staging folder found and
/// `record` the record file the report points at.
pub fn lock_verdict(holder: Option<(u32, bool)>, tmp_exists: bool, op_id: Option<&str>, record: &str) -> (r: LockVerdict)
    ensures
        match holder {
            Some((pid, true)) => r == LockVerdict::AlreadyRunning { pid },
            Some((_, false)) => r matches LockVerdict::Stale { message } && message@ == stale_message_spec(
                match op_id {
                    Some(i) => Some(i@),
                    None => None,
                },
                record@,
            ),
            None => if tmp_exists {
                r matches LockVerdict::Stale { message } && message@ == stale_message_spec(
                    match op_id {
                        Some(i) => Some(i@),
                        None => None,
                    },
                    record@,
                )
            } else {
                r == LockVerdict::Acquire
            },
        },
{
    match holder {
        Some((pid, alive)) => if alive {
            LockVerdict::AlreadyRunning { pid }
        } else {
            LockVerdict::Stale { message: stale_message(op_id, record) }
        },
        None => if tmp_exists {
            LockVerdict::Stale { message: stale_message(op_id, record) }
        } else {
            LockVerdict::Acquire
        },
    }
}

/// The message of a lock that is in use.
pub fn already_running_message(pid: u32) -> (r: String)
    ensures
        r@ == "anchor is already running (pid "@ + dec(pid as nat) + "). Wait for it to finish."@,
{
    proof {
        reveal_strlit("anchor is already running (pid ");
        reveal_strlit("). Wait for it to finish.");
    }
    let mut s = "anchor is already running (pid ".to_owned();
    push_decimal_u64(&mut s, pid as u64);
    s.append("). Wait for it to finish.");
    s
}

// ───────────────────────── recover ─────────────────────────

/// The staging folders `recover` looks at: folder entries named `op-…`, in
/// name order.
pub open spec fn op_folders(entries: Seq<(Seq<char>, bool)>) -> Seq<Seq<char>>
    decreases entries.len(),
{
    if entries.len() == 0 {
        seq![]
    } else {
        op_folders(entries.drop_last()) + if entries.last().1 && starts_with_chars(entries.last().0, "op-"@) {
            seq![entries.last().0]
        } else {
            seq![]
        }
    }
}

/// The staging folders among the entries (name, whether it is a folder) of
/// the staging area, sorted by name.
pub fn stale_op_folders(entries: &Vec<(String, bool)>) -> (r: Vec<String>)
    ensures
        crate::order::sorted_le(string_views(r@)),
        string_views(r@).to_multiset() == op_folders(entries@.map_values(|e: (String, bool)| (e.0@, e.1))).to_multiset(),
{
    proof {
        reveal_strlit("op-");
    }
    let ghost ev = entries@.map_values(|e: (String, bool)| (e.0@, e.1));
    let mut names: Vec<String> = Vec::new();
    let mut i: usize = 0;
    assert(ev.take(0) =~= Seq::<(Seq<char>, bool)>::empty());
    while i < entries.len()
        invariant
            ev == entries@.map_values(|e: (String, bool)| (e.0@, e.1)),
            i <= entries@.len(),
            string_views(names@) == op_folders(ev.take(i as int)),
        decreases entries@.len() - i,
    {
        let ghost t = ev.take(i + 1);
        assert(t.drop_last() =~= ev.take(i as int));
        assert(t.last() == ev[i as int]);
        let ghost before = string_views(names@);
        if entries[i].1 && starts_with_str(entries[i].0.as_str(), "op-") {
            names.push(entries[i].0.clone());
            assert(string_views(names@) =~= before + seq![ev[i as int].0]);
        } else {
            assert(before + Seq::<Seq<char>>::empty() =~= before);
        }
        i = i + 1;
    }
    assert(ev.take(i as int) =~= ev);
    crate::order::sort_strings(&names)
}

/// Whether an interrupted operation in `phase` (`None` when its record
/// could not be read, which counts as `PLAN`) can be rolled back by deleting
/// its staging folder: before the commit phase the originals are untouched.
pub open spec fn can_roll_back_spec(phase: Option<Seq<char>>) -> bool {
    match phase {
        None => true,
        Some(p) => p == "PLAN"@ || p == "VALIDATE"@,
    }
}

pub fn can_roll_back(phase: Option<&str>) -> (r: bool)
    ensures
        r == can_roll_back_spec(
            match phase {
                Some(p) => Some(p@),
                None => None,
            },
        ),
{
    proof {
        reveal_strlit("PLAN");
        reveal_strlit("VALIDATE");
    }
    match phase {
        None => true,
        Some(p) => str_eq(p, "PLAN") || str_eq(p, "VALIDATE"),
    }
}

/// The lines to standard error for an operation left in `phase` that needs
/// a person to resolve it; `record` is the operation's record file.
pub open spec fn manual_lines_spec(op_id: Seq<char>, phase: Seq<char>, record: Seq<char>) -> Seq<Seq<char>> {
    seq![
        "Warning: "@ + op_id + " is in phase "@ + phase + " \u{2014} some renames may have been applied."@,
        "  Manual resolution required:"@,
        "  1. Inspect: .accelmars/anchor/tmp/"@ + op_id + "/"@ + record,
        "  2. Determine which renames completed by comparing workspace files."@,
        "  3. Once resolved, delete: .accelmars/anchor/tmp/"@ + op_id,
    ]
}

pub fn manual_lines(op_id: &str, phase: &str, record: &str) -> (r: Vec<String>)
    ensures
        string_views(r@) == manual_lines_spec(op_id@, phase@, record@),
{
    proof {
        reveal_strlit("Warning: ");
        reveal_strlit(" is in phase ");
        reveal_strlit(" \u{2014} some renames may have been applied.");
        reveal_strlit("  Manual resolution required:");
        reveal_strlit("  1. Inspect: .accelmars/anchor/tmp/");
        reveal_strlit("/");
        reveal_strlit("  2. Determine which renames completed by comparing workspace files.");
        reveal_strlit("  3. Once resolved, delete: .accelmars/anchor/tmp/");
    }
    let mut out: Vec<String> = Vec::new();
    let mut a = "Warning: ".to_owned();
    a.append(op_id);
    a.append(" is in phase ");
    a.append(phase);
    a.append(" \u{2014} some renames may have been applied.");
    out.push(a);
    out.push("  Manual resolution required:".to_owned());
    let mut b = "  1. Inspect: .accelmars/anchor/tmp/".to_owned();
    b.append(op_id);
    b.append("/");
    b.append(record);
    out.push(b);
    out.push("  2. Determine which renames completed by comparing workspace files.".to_owned());
    let mut c = "  3. Once resolved, delete: .accelmars/anchor/tmp/".to_owned();
    c.append(op_id);
    out.push(c);
    assert(string_views(out@) =~= manual_lines_spec(op_id@, phase@, record@));
    out
}

} // verus!

verus! {

/// What became of one stale operation.
#[derive(Debug)]
pub enum OpOutcome {
    RolledBack,
    /// Left in this phase; a person has to resolve it.
    NeedsManual(String),
    /// Rolling back failed, for this reason.
    Failed(String),
}

pub enum OutcomeView {
    RolledBack,
    NeedsManual(Seq<char>),
    Failed(Seq<char>),
}

pub open spec fn outcome_view(o: OpOutcome) -> OutcomeView {
    match o {
        OpOutcome::RolledBack => OutcomeView::RolledBack,
        OpOutcome::NeedsManual(p) => OutcomeView::NeedsManual(p@),
        OpOutcome::Failed(e) => OutcomeView::Failed(e@),
    }
}

pub open spec fn outcome_views(v: Seq<(String, OpOutcome)>) -> Seq<(Seq<char>, OutcomeView)> {
    v.map_values(|e: (String, OpOutcome)| (e.0@, outcome_view(e.1)))
}

/// The report of the operations' outcomes, in order: the lines for standard
/// output, the lines for standard error, and whether one needs a person.
pub open spec fn recover_report_spec(os: Seq<(Seq<char>, OutcomeView)>, record: Seq<char>) -> (
    Seq<Seq<char>>,
    Seq<Seq<char>>,
    bool,
)
    decreases os.len(),
{
    if os.len() == 0 {
        (seq![], seq![], false)
    } else {
        let (out, err, manual) = recover_report_spec(os.drop_last(), record);
        let (id, o) = os.last();
        match o {
            OutcomeView::RolledBack => (out.push("Rolled back: "@ + id), err, manual),
            OutcomeView::NeedsManual(phase) => (out, err + manual_lines_spec(id, phase, record), true),
            OutcomeView::Failed(reason) => (out, err.push("error processing "@ + id + ": "@ + reason), true),
        }
    }
}

/// Report the outcomes of `recover`; the exit status is 1 when an operation
/// needs a person, else 0.
pub fn recover_report(outcomes: &Vec<(String, OpOutcome)>, record: &str) -> (r: (Vec<String>, Vec<String>, i32))
    ensures
        ({
            let (out, err, manual) = recover_report_spec(outcome_views(outcomes@), record@);
            &&& string_views(r.0@) == out
            &&& string_views(r.1@) == err
            &&& r.2 == (if manual { 1i32 } else { 0i32 })
        }),
{
    proof {
        reveal_strlit("Rolled back: ");
        reveal_strlit("error processing ");
        reveal_strlit(": ");
    }
    let ghost ov = outcome_views(outcomes@);
    let mut out: Vec<String> = Vec::new();
    let mut err: Vec<String> = Vec::new();
    let mut manual = false;
    let mut i: usize = 0;
    while i < outcomes.len()
        invariant
            ov == outcome_views(outcomes@),
            i <= outcomes@.len(),
            recover_report_spec(ov.take(i as int), record@) == (string_views(out@), string_views(err@), manual),
        decreases outcomes@.len() - i,
    {
        assert(ov.take(i + 1).drop_last() =~= ov.take(i as int));
        assert(ov.take(i + 1).last() == ov[i as int]);
        let (id, o) = &outcomes[i];
        let ghost ob = string_views(out@);
        let ghost eb = string_views(err@);
        match o {
            OpOutcome::RolledBack => {
                let mut l = "Rolled back: ".to_owned();
                l.append(id.as_str());
                out.push(l);
                assert(string_views(out@) =~= ob.push("Rolled back: "@ + id@));
            },
            OpOutcome::NeedsManual(phase) => {
                let mut more = manual_lines(id.as_str(), phase.as_str(), record);
                let ghost mv = string_views(more@);
                err.append(&mut more);
                assert(string_views(err@) =~= eb + mv);
                manual = true;
            },
            OpOutcome::Failed(reason) => {
                let mut l = "error processing ".to_owned();
                l.append(id.as_str());
                l.append(": ");
                l.append(reason.as_str());
                err.push(l);
                assert(string_views(err@) =~= eb.push("error processing "@ + id@ + ": "@ + reason@));
                manual = true;
            },
        }
        i = i + 1;
    }
    assert(ov.take(i as int) =~= ov);
    (out, err, if manual { 1 } else { 0 })
}

} // verus!
