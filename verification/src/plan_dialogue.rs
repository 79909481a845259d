//! The dialogue of `plan new`: after the template menu, each answer typed
//! (a line, or none at the end of input) moves the dialogue on, with the
//! prompt to show next, until the plan's operations and description are known
//! or the answer to the template question is refused.

use vstd::prelude::*;
use vstd::string::*;
use crate::acked::{parse_usize, parse_usize_spec};
use crate::fmt::{dec, push_decimal};
use crate::plan::Op;
use crate::plan_wizard::{
    archive_ops, archive_spec, basename_of, basename_spec, batch_move_ops, batch_move_spec, categorize_ops,
    categorize_spec, op_views, pair_views, plan_description, rename_ops, rename_spec, scaffold_ops,
    selection_index, selection_spec, OpView,
};
use crate::text::{string_views, trim, trim_spec};

verus! {

broadcast use vstd::seq::group_seq_axioms;

/// Where the dialogue stands: which question was just asked, and the answers so far.
#[derive(Debug)]
pub enum Dialogue {
    /// The template question.
    Select,
    BatchCount,
    /// The source of move `i` of `n` (1-based).
    BatchSrc { n: usize, i: usize, pairs: Vec<(String, String)> },
    BatchDst { n: usize, i: usize, pairs: Vec<(String, String)>, src: String },
    CatParent,
    CatItems { parent: String, items: Vec<String> },
    /// The new name of item `names.len()`.
    CatNames { parent: String, items: Vec<String>, names: Vec<String> },
    ArcFolder,
    ArcItems { archive: String, items: Vec<String> },
    RenItems { items: Vec<String> },
    RenNames { items: Vec<String>, names: Vec<String> },
    ScafDirs { dirs: Vec<String> },
    Describe { ops: Vec<Op> },
    /// The plan is known.
    Done { ops: Vec<Op>, description: Option<String> },
    /// The dialogue ended with an error (exit status 1).
    Failed,
}

pub enum DView {
    Select,
    BatchCount,
    BatchSrc(int, int, Seq<(Seq<char>, Seq<char>)>),
    BatchDst(int, int, Seq<(Seq<char>, Seq<char>)>, Seq<char>),
    CatParent,
    CatItems(Seq<char>, Seq<Seq<char>>),
    CatNames(Seq<char>, Seq<Seq<char>>, Seq<Seq<char>>),
    ArcFolder,
    ArcItems(Seq<char>, Seq<Seq<char>>),
    RenItems(Seq<Seq<char>>),
    RenNames(Seq<Seq<char>>, Seq<Seq<char>>),
    ScafDirs(Seq<Seq<char>>),
    Describe(Seq<OpView>),
    Done(Seq<OpView>, Option<Seq<char>>),
    Failed,
}

pub open spec fn dview(d: Dialogue) -> DView {
    match d {
        Dialogue::Select => DView::Select,
        Dialogue::BatchCount => DView::BatchCount,
        Dialogue::BatchSrc { n, i, pairs } => DView::BatchSrc(n as int, i as int, pair_views(pairs@)),
        Dialogue::BatchDst { n, i, pairs, src } => DView::BatchDst(n as int, i as int, pair_views(pairs@), src@),
        Dialogue::CatParent => DView::CatParent,
        Dialogue::CatItems { parent, items } => DView::CatItems(parent@, string_views(items@)),
        Dialogue::CatNames { parent, items, names } => DView::CatNames(parent@, string_views(items@), string_views(names@)),
        Dialogue::ArcFolder => DView::ArcFolder,
        Dialogue::ArcItems { archive, items } => DView::ArcItems(archive@, string_views(items@)),
        Dialogue::RenItems { items } => DView::RenItems(string_views(items@)),
        Dialogue::RenNames { items, names } => DView::RenNames(string_views(items@), string_views(names@)),
        Dialogue::ScafDirs { dirs } => DView::ScafDirs(string_views(dirs@)),
        Dialogue::Describe { ops } => DView::Describe(op_views(ops@)),
        Dialogue::Done { ops, description } => DView::Done(
            op_views(ops@),
            match description {
                Some(d) => Some(d@),
                None => None,
            },
        ),
        Dialogue::Failed => DView::Failed,
    }
}

/// Whether the dialogue waits for an answer in this state.
pub open spec fn waiting(d: DView) -> bool {
    match d {
        DView::Done(_, _) => false,
        DView::Failed => false,
        DView::BatchSrc(n, i, _) => 1 <= i <= n,
        DView::BatchDst(n, i, _, _) => 1 <= i <= n,
        DView::CatNames(_, items, names) => names.len() < items.len(),
        DView::RenNames(items, names) => names.len() < items.len(),
        _ => true,
    }
}

pub open spec fn describe_prompt() -> Seq<char> {
    "Plan description (optional, Enter to skip): "@
}

pub open spec fn src_prompt(i: int, n: int) -> Seq<char> {
    "Move "@ + dec(i as nat) + "/"@ + dec(n as nat) + " source: "@
}

pub open spec fn dst_prompt(i: int, n: int) -> Seq<char> {
    "Move "@ + dec(i as nat) + "/"@ + dec(n as nat) + " destination: "@
}

pub open spec fn keep_prompt(item: Seq<char>) -> Seq<char> {
    "New name for "@ + basename_spec(item) + " [Enter to keep]: "@
}

pub open spec fn skip_prompt(item: Seq<char>) -> Seq<char> {
    "New name for "@ + item + " [Enter to skip]: "@
}

/// An answer as read: `None` at the end of input.
pub open spec fn answer(l: Option<Seq<char>>) -> Seq<char> {
    match l {
        Some(s) => s,
        None => seq![],
    }
}

/// An item of a list: a line whose trimmed text is not blank ends nothing.
pub open spec fn list_item(l: Option<Seq<char>>) -> Option<Seq<char>> {
    match l {
        Some(s) => if trim_spec(s).len() > 0 {
            Some(trim_spec(s))
        } else {
            None
        },
        None => None,
    }
}

/// The questions that follow a finished list of operations.
pub open spec fn to_describe(ops: Seq<OpView>) -> (DView, Seq<char>) {
    (DView::Describe(ops), describe_prompt())
}

/// What follows the answer `l` in state `d`: the next state and the text to show.
pub open spec fn dialogue_next(d: DView, l: Option<Seq<char>>) -> (DView, Seq<char>) {
    match d {
        DView::Select => match l {
            None => (DView::Failed, "error: no input\n"@),
            Some(s) => match selection_spec(s, 5) {
                None => (DView::Failed, "error: invalid selection '"@ + trim_spec(s) + "'\n"@),
                Some(k) => if k == 0 {
                    (DView::BatchCount, "How many moves? "@)
                } else if k == 1 {
                    (DView::CatParent, "Parent folder name: "@)
                } else if k == 2 {
                    (DView::ArcFolder, "Archive folder: "@)
                } else if k == 3 {
                    (DView::RenItems(seq![]), "Items to rename (one per line, blank to finish):\n"@)
                } else {
                    (DView::ScafDirs(seq![]), "Directories to create (one per line, blank to finish):\n"@)
                },
            },
        },
        DView::BatchCount => {
            let n = match l {
                Some(s) => match parse_usize_spec(trim_spec(s)) {
                    Some(k) => k,
                    None => 0,
                },
                None => 0,
            };
            if n == 0 {
                to_describe(seq![])
            } else {
                (DView::BatchSrc(n, 1, seq![]), src_prompt(1, n))
            }
        },
        DView::BatchSrc(n, i, pairs) => (DView::BatchDst(n, i, pairs, answer(l)), dst_prompt(i, n)),
        DView::BatchDst(n, i, pairs, src) => {
            let ps = pairs.push((src, answer(l)));
            if i < n {
                (DView::BatchSrc(n, i + 1, ps), src_prompt(i + 1, n))
            } else {
                to_describe(batch_move_spec(ps))
            }
        },
        DView::CatParent => (
            DView::CatItems(trim_spec(answer(l)), seq![]),
            "Items to categorize (one per line, blank to finish):\n"@,
        ),
        DView::CatItems(parent, items) => match list_item(l) {
            Some(x) => (DView::CatItems(parent, items.push(x)), seq![]),
            None => if items.len() == 0 {
                to_describe(categorize_spec(parent, items, seq![]))
            } else {
                (DView::CatNames(parent, items, seq![]), keep_prompt(items[0]))
            },
        },
        DView::CatNames(parent, items, names) => {
            let ns = names.push(trim_spec(answer(l)));
            if ns.len() < items.len() {
                (DView::CatNames(parent, items, ns), keep_prompt(items[ns.len() as int]))
            } else {
                to_describe(categorize_spec(parent, items, ns))
            }
        },
        DView::ArcFolder => (
            DView::ArcItems(trim_spec(answer(l)), seq![]),
            "Items to archive (one per line, blank to finish):\n"@,
        ),
        DView::ArcItems(archive, items) => match list_item(l) {
            Some(x) => (DView::ArcItems(archive, items.push(x)), seq![]),
            None => to_describe(archive_spec(archive, items)),
        },
        DView::RenItems(items) => match list_item(l) {
            Some(x) => (DView::RenItems(items.push(x)), seq![]),
            None => if items.len() == 0 {
                to_describe(seq![])
            } else {
                (DView::RenNames(items, seq![]), skip_prompt(items[0]))
            },
        },
        DView::RenNames(items, names) => {
            let ns = names.push(trim_spec(answer(l)));
            if ns.len() < items.len() {
                (DView::RenNames(items, ns), skip_prompt(items[ns.len() as int]))
            } else {
                to_describe(rename_spec(items, ns))
            }
        },
        DView::ScafDirs(dirs) => match list_item(l) {
            Some(x) => (DView::ScafDirs(dirs.push(x)), seq![]),
            None => to_describe(dirs.map_values(|x: Seq<char>| OpView::CreateDir(x))),
        },
        DView::Describe(ops) => (
            DView::Done(
                ops,
                match l {
                    Some(s) => if trim_spec(s).len() > 0 {
                        Some(trim_spec(s))
                    } else {
                        None
                    },
                    None => None,
                },
            ),
            seq![],
        ),
        _ => (d, seq![]),
    }
}

fn clone_all(v: &Vec<String>) -> (r: Vec<String>)
    ensures
        string_views(r@) == string_views(v@),
{
    let mut out: Vec<String> = Vec::new();
    let mut i: usize = 0;
    while i < v.len()
        invariant
            i <= v@.len(),
            string_views(out@) == string_views(v@).take(i as int),
        decreases v@.len() - i,
    {
        let ghost before = string_views(out@);
        out.push(v[i].clone());
        assert(string_views(out@) =~= before.push(v@[i as int]@));
        assert(string_views(v@).take(i + 1) =~= string_views(v@).take(i as int).push(v@[i as int]@));
        i = i + 1;
    }
    assert(string_views(v@).take(i as int) =~= string_views(v@));
    out
}

fn push_str(v: Vec<String>, s: String) -> (r: Vec<String>)
    ensures
        string_views(r@) == string_views(v@).push(s@),
{
    let mut v = v;
    let ghost before = string_views(v@);
    v.push(s);
    assert(string_views(v@) =~= before.push(s@));
    v
}

fn src_text(i: usize, n: usize, dst: bool) -> (r: String)
    ensures
        r@ == if dst {
            dst_prompt(i as int, n as int)
        } else {
            src_prompt(i as int, n as int)
        },
{
    proof {
        reveal_strlit("Move ");
        reveal_strlit("/");
        reveal_strlit(" source: ");
        reveal_strlit(" destination: ");
    }
    let mut s = "Move ".to_owned();
    push_decimal(&mut s, i);
    s.append("/");
    push_decimal(&mut s, n);
    if dst {
        s.append(" destination: ");
    } else {
        s.append(" source: ");
    }
    s
}

fn keep_text(item: &str) -> (r: String)
    ensures
        r@ == keep_prompt(item@),
{
    proof {
        reveal_strlit("New name for ");
        reveal_strlit(" [Enter to keep]: ");
    }
    let mut s = "New name for ".to_owned();
    let b = basename_of(item);
    s.append(b.as_str());
    s.append(" [Enter to keep]: ");
    s
}

fn skip_text(item: &str) -> (r: String)
    ensures
        r@ == skip_prompt(item@),
{
    proof {
        reveal_strlit("New name for ");
        reveal_strlit(" [Enter to skip]: ");
    }
    let mut s = "New name for ".to_owned();
    s.append(item);
    s.append(" [Enter to skip]: ");
    s
}

fn describe(ops: Vec<Op>) -> (r: (Dialogue, String))
    ensures
        (dview(r.0), r.1@) == to_describe(op_views(ops@)),
{
    proof {
        reveal_strlit("Plan description (optional, Enter to skip): ");
    }
    (Dialogue::Describe { ops }, "Plan description (optional, Enter to skip): ".to_owned())
}

fn answer_of(l: &Option<String>) -> (r: String)
    ensures
        r@ == answer(
            match l {
                Some(s) => Some(s@),
                None => None,
            },
        ),
{
    match l {
        Some(s) => s.clone(),
        None => String::new(),
    }
}

fn list_item_of(l: &Option<String>) -> (r: Option<String>)
    ensures
        match r {
            Some(x) => list_item(
                match l {
                    Some(s) => Some(s@),
                    None => None,
                },
            ) == Some(x@),
            None => list_item(
                match l {
                    Some(s) => Some(s@),
                    None => None,
                },
            ) is None,
        },
{
    match l {
        Some(s) => {
            let t = trim(s.as_str());
            if t.unicode_len() > 0 {
                Some(t.to_owned())
            } else {
                None
            }
        },
        None => None,
    }
}

/// Move the dialogue on with the answer `line` (`None` at the end of input):
/// the next state and the text to show before the next answer.
pub fn dialogue_step(d: Dialogue, line: Option<String>) -> (r: (Dialogue, String))
    requires
        waiting(dview(d)),
    ensures
        (dview(r.0), r.1@) == dialogue_next(
            dview(d),
            match line {
                Some(s) => Some(s@),
                None => None,
            },
        ),
        waiting(dview(r.0)) || r.0 is Done || r.0 is Failed,
{
    proof {
        reveal_strlit("error: no input\n");
        reveal_strlit("error: invalid selection '");
        reveal_strlit("'\n");
        reveal_strlit("How many moves? ");
        reveal_strlit("Parent folder name: ");
        reveal_strlit("Archive folder: ");
        reveal_strlit("Items to rename (one per line, blank to finish):\n");
        reveal_strlit("Directories to create (one per line, blank to finish):\n");
        reveal_strlit("Items to categorize (one per line, blank to finish):\n");
        reveal_strlit("Items to archive (one per line, blank to finish):\n");
    }
    match d {
        Dialogue::Select => match &line {
            None => (Dialogue::Failed, "error: no input\n".to_owned()),
            Some(s) => match selection_index(s.as_str(), 5) {
                None => {
                    let mut m = "error: invalid selection '".to_owned();
                    m.append(trim(s.as_str()));
                    m.append("'\n");
                    (Dialogue::Failed, m)
                },
                Some(k) => if k == 0 {
                    (Dialogue::BatchCount, "How many moves? ".to_owned())
                } else if k == 1 {
                    (Dialogue::CatParent, "Parent folder name: ".to_owned())
                } else if k == 2 {
                    (Dialogue::ArcFolder, "Archive folder: ".to_owned())
                } else if k == 3 {
                    let e: Vec<String> = Vec::new();
                    assert(string_views(e@) =~= Seq::<Seq<char>>::empty());
                    (Dialogue::RenItems { items: e }, "Items to rename (one per line, blank to finish):\n".to_owned())
                } else {
                    let e: Vec<String> = Vec::new();
                    assert(string_views(e@) =~= Seq::<Seq<char>>::empty());
                    (Dialogue::ScafDirs { dirs: e }, "Directories to create (one per line, blank to finish):\n".to_owned())
                },
            },
        },
        Dialogue::BatchCount => {
            let n: usize = match &line {
                Some(s) => match parse_usize(trim(s.as_str())) {
                    Some(k) => k,
                    None => 0,
                },
                None => 0,
            };
            if n == 0 {
                let e: Vec<Op> = Vec::new();
                assert(op_views(e@) =~= Seq::<OpView>::empty());
                describe(e)
            } else {
                let e: Vec<(String, String)> = Vec::new();
                assert(pair_views(e@) =~= Seq::<(Seq<char>, Seq<char>)>::empty());
                (Dialogue::BatchSrc { n, i: 1, pairs: e }, src_text(1, n, false))
            }
        },
        Dialogue::BatchSrc { n, i, pairs } => {
            let src = answer_of(&line);
            (Dialogue::BatchDst { n, i, pairs, src }, src_text(i, n, true))
        },
        Dialogue::BatchDst { n, i, pairs, src } => {
            let dst = answer_of(&line);
            let mut pairs = pairs;
            let ghost before = pair_views(pairs@);
            pairs.push((src, dst));
            assert(pair_views(pairs@) =~= before.push((src@, dst@)));
            if i < n {
                (Dialogue::BatchSrc { n, i: i + 1, pairs }, src_text(i + 1, n, false))
            } else {
                describe(batch_move_ops(&pairs))
            }
        },
        Dialogue::CatParent => {
            let a = answer_of(&line);
            let p = trim(a.as_str()).to_owned();
            let e: Vec<String> = Vec::new();
            assert(string_views(e@) =~= Seq::<Seq<char>>::empty());
            (Dialogue::CatItems { parent: p, items: e }, "Items to categorize (one per line, blank to finish):\n".to_owned())
        },
        Dialogue::CatItems { parent, items } => match list_item_of(&line) {
            Some(x) => (Dialogue::CatItems { parent, items: push_str(items, x) }, String::new()),
            None => if items.len() == 0 {
                let names: Vec<String> = Vec::new();
                assert(string_views(names@) =~= Seq::<Seq<char>>::empty());
                describe(categorize_ops(parent.as_str(), &items, &names))
            } else {
                let t = keep_text(items[0].as_str());
                let e: Vec<String> = Vec::new();
                assert(string_views(e@) =~= Seq::<Seq<char>>::empty());
                (Dialogue::CatNames { parent, items, names: e }, t)
            },
        },
        Dialogue::CatNames { parent, items, names } => {
            let a = answer_of(&line);
            let ns = push_str(names, trim(a.as_str()).to_owned());
            if ns.len() < items.len() {
                let t = keep_text(items[ns.len()].as_str());
                (Dialogue::CatNames { parent, items, names: ns }, t)
            } else {
                assert(string_views(ns@).len() == ns@.len() && string_views(names@).len() == names@.len());
                describe(categorize_ops(parent.as_str(), &items, &ns))
            }
        },
        Dialogue::ArcFolder => {
            let a = answer_of(&line);
            let p = trim(a.as_str()).to_owned();
            let e: Vec<String> = Vec::new();
            assert(string_views(e@) =~= Seq::<Seq<char>>::empty());
            (Dialogue::ArcItems { archive: p, items: e }, "Items to archive (one per line, blank to finish):\n".to_owned())
        },
        Dialogue::ArcItems { archive, items } => match list_item_of(&line) {
            Some(x) => (Dialogue::ArcItems { archive, items: push_str(items, x) }, String::new()),
            None => describe(archive_ops(archive.as_str(), &items)),
        },
        Dialogue::RenItems { items } => match list_item_of(&line) {
            Some(x) => (Dialogue::RenItems { items: push_str(items, x) }, String::new()),
            None => if items.len() == 0 {
                let e: Vec<Op> = Vec::new();
                assert(op_views(e@) =~= Seq::<OpView>::empty());
                describe(e)
            } else {
                let t = skip_text(items[0].as_str());
                let e: Vec<String> = Vec::new();
                assert(string_views(e@) =~= Seq::<Seq<char>>::empty());
                (Dialogue::RenNames { items, names: e }, t)
            },
        },
        Dialogue::RenNames { items, names } => {
            let a = answer_of(&line);
            let ns = push_str(names, trim(a.as_str()).to_owned());
            if ns.len() < items.len() {
                let t = skip_text(items[ns.len()].as_str());
                (Dialogue::RenNames { items, names: ns }, t)
            } else {
                assert(string_views(ns@).len() == ns@.len() && string_views(names@).len() == names@.len());
                describe(rename_ops(&items, &ns))
            }
        },
        Dialogue::ScafDirs { dirs } => match list_item_of(&line) {
            Some(x) => (Dialogue::ScafDirs { dirs: push_str(dirs, x) }, String::new()),
            None => describe(scaffold_ops(&dirs)),
        },
        Dialogue::Describe { ops } => {
            let description = plan_description(line);
            (Dialogue::Done { ops, description }, String::new())
        },
        Dialogue::Done { ops, description } => (Dialogue::Done { ops, description }, String::new()),
        Dialogue::Failed => (Dialogue::Failed, String::new()),
    }
}

} // verus!
