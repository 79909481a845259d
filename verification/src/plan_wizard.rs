//! `plan new`: the operations each template builds from the user's answers.

use vstd::prelude::*;
use vstd::string::*;
use crate::acked::{parse_usize, parse_usize_spec};
use crate::plan::Op;
use crate::resolver::{path_parent, std_path_parent};
use crate::text::{string_views, trim, trim_spec};

verus! {

broadcast use vstd::seq::group_seq_axioms;

/// An operation as plain values.
pub enum OpView {
    Move(Seq<char>, Seq<char>),
    CreateDir(Seq<char>),
    TextRename,
}

pub open spec fn op_view(o: Op) -> OpView {
    match o {
        Op::Move { src, dst } => OpView::Move(src@, dst@),
        Op::CreateDir { path } => OpView::CreateDir(path@),
        Op::TextRename(_) => OpView::TextRename,
    }
}

pub open spec fn op_views(v: Seq<Op>) -> Seq<OpView> {
    v.map_values(|o: Op| op_view(o))
}

/// The 0-based template index chosen by typing `input` when there are
/// `count` templates: a number from 1 to `count`, blanks around it ignored.
pub open spec fn selection_spec(input: Seq<char>, count: int) -> Option<int> {
    match parse_usize_spec(trim_spec(input)) {
        Some(n) => if 1 <= n <= count {
            Some(n - 1)
        } else {
            None
        },
        None => None,
    }
}

/// The template chosen by the answer `input`, if it names one.
pub fn selection_index(input: &str, count: usize) -> (r: Option<usize>)
    ensures
        match r {
            Some(i) => selection_spec(input@, count as int) == Some(i as int),
            None => selection_spec(input@, count as int) is None,
        },
{
    match parse_usize(trim(input)) {
        Some(n) => if 1 <= n && n <= count {
            Some(n - 1)
        } else {
            None
        },
        None => None,
    }
}

/// The optional plan description typed as `input`: trimmed, `None` when blank.
pub fn plan_description(input: Option<String>) -> (r: Option<String>)
    ensures
        match r {
            Some(d) => input is Some && d@ == trim_spec(input.unwrap()@) && d@.len() > 0,
            None => input is None || trim_spec(input.unwrap()@).len() == 0,
        },
{
    match input {
        Some(s) => {
            let t = trim(s.as_str());
            if t.unicode_len() == 0 {
                None
            } else {
                Some(t.to_owned())
            }
        },
        None => None,
    }
}

/// What `std::path::Path::file_name` gives for a path, as text.
pub uninterp spec fn std_file_name(p: Seq<char>) -> Option<Seq<char>>;

/// Calls `std::path::Path::file_name`; the result is named `std_file_name`.
#[verifier::external_body]
pub(crate) fn file_name(p: &str) -> (r: Option<String>)
    ensures
        match r {
            Some(s) => std_file_name(p@) == Some(s@),
            None => std_file_name(p@) is None,
        },
{
    std::path::Path::new(p).file_name().and_then(|n| n.to_str()).map(|n| n.to_string())
}

/// The last component of `item`, or `item` itself when it has none.
pub open spec fn basename_spec(item: Seq<char>) -> Seq<char> {
    match std_file_name(item) {
        Some(n) => n,
        None => item,
    }
}

/// The name an item keeps when it moves into another folder.
pub fn basename_of(item: &str) -> (r: String)
    ensures
        r@ == basename_spec(item@),
{
    match file_name(item) {
        Some(n) => n,
        None => item.to_owned(),
    }
}

fn join2(a: &str, b: &str) -> (r: String)
    ensures
        r@ == a@ + seq!['/'] + b@,
{
    let mut s = a.to_owned();
    crate::text::push_char(&mut s, '/');
    s.append(b);
    s
}

fn push_op(out: &mut Vec<Op>, o: Op)
    ensures
        op_views(final(out)@) == op_views(old(out)@).push(op_view(o)),
{
    let ghost before = op_views(out@);
    out.push(o);
    assert(op_views(out@) =~= before.push(op_view(o)));
}

/// Batch move: one move per answered pair whose trimmed source and
/// destination are both non-empty.
pub open spec fn batch_move_spec(pairs: Seq<(Seq<char>, Seq<char>)>) -> Seq<OpView>
    decreases pairs.len(),
{
    if pairs.len() == 0 {
        seq![]
    } else {
        let rest = batch_move_spec(pairs.drop_last());
        let (s, d) = pairs.last();
        if trim_spec(s).len() > 0 && trim_spec(d).len() > 0 {
            rest.push(OpView::Move(trim_spec(s), trim_spec(d)))
        } else {
            rest
        }
    }
}

pub open spec fn pair_views(v: Seq<(String, String)>) -> Seq<(Seq<char>, Seq<char>)> {
    v.map_values(|p: (String, String)| (p.0@, p.1@))
}

/// The operations of the batch-move template.
pub fn batch_move_ops(pairs: &Vec<(String, String)>) -> (r: Vec<Op>)
    ensures
        op_views(r@) == batch_move_spec(pair_views(pairs@)),
{
    let mut out: Vec<Op> = Vec::new();
    let mut i: usize = 0;
    while i < pairs.len()
        invariant
            i <= pairs@.len(),
            op_views(out@) == batch_move_spec(pair_views(pairs@).take(i as int)),
        decreases pairs@.len() - i,
    {
        let s = trim(pairs[i].0.as_str());
        let d = trim(pairs[i].1.as_str());
        if s.unicode_len() > 0 && d.unicode_len() > 0 {
            push_op(&mut out, Op::Move { src: s.to_owned(), dst: d.to_owned() });
        }
        assert(pair_views(pairs@).take(i + 1).drop_last() =~= pair_views(pairs@).take(i as int));
        i = i + 1;
    }
    assert(pair_views(pairs@).take(i as int) =~= pair_views(pairs@));
    out
}

/// Categorize: create the (trimmed) parent folder, then move each item into
/// it under its new name, or its own name when the new name is blank.
pub open spec fn categorize_spec(parent: Seq<char>, items: Seq<Seq<char>>, names: Seq<Seq<char>>) -> Seq<OpView> {
    seq![OpView::CreateDir(trim_spec(parent))] + Seq::new(
        items.len(),
        |i: int|
            OpView::Move(
                items[i],
                trim_spec(parent) + seq!['/'] + (if trim_spec(names[i]).len() == 0 {
                    basename_spec(items[i])
                } else {
                    trim_spec(names[i])
                }),
            ),
    )
}

/// The operations of the categorize template.
pub fn categorize_ops(parent: &str, items: &Vec<String>, new_names: &Vec<String>) -> (r: Vec<Op>)
    requires
        new_names@.len() == items@.len(),
    ensures
        op_views(r@) == categorize_spec(parent@, string_views(items@), string_views(new_names@)),
{
    let p = trim(parent);
    let mut out: Vec<Op> = Vec::new();
    push_op(&mut out, Op::CreateDir { path: p.to_owned() });
    let ghost iv = string_views(items@);
    let ghost nv = string_views(new_names@);
    let mut i: usize = 0;
    while i < items.len()
        invariant
            iv == string_views(items@),
            nv == string_views(new_names@),
            new_names@.len() == items@.len(),
            p@ == trim_spec(parent@),
            i <= items@.len(),
            op_views(out@) == categorize_spec(parent@, iv, nv).take(i + 1),
        decreases items@.len() - i,
    {
        let nn = trim(new_names[i].as_str());
        let name = if nn.unicode_len() == 0 {
            basename_of(items[i].as_str())
        } else {
            nn.to_owned()
        };
        push_op(&mut out, Op::Move { src: items[i].clone(), dst: join2(p, name.as_str()) });
        assert(categorize_spec(parent@, iv, nv).take(i + 2) =~= categorize_spec(parent@, iv, nv).take(i + 1).push(
            categorize_spec(parent@, iv, nv)[i + 1],
        ));
        i = i + 1;
    }
    assert(categorize_spec(parent@, iv, nv).take(i + 1) =~= categorize_spec(parent@, iv, nv));
    out
}

/// Archive: create the (trimmed) archive folder, then move each item into it
/// under its own name.
pub open spec fn archive_spec(archive: Seq<char>, items: Seq<Seq<char>>) -> Seq<OpView> {
    seq![OpView::CreateDir(trim_spec(archive))] + Seq::new(
        items.len(),
        |i: int| OpView::Move(items[i], trim_spec(archive) + seq!['/'] + basename_spec(items[i])),
    )
}

/// The operations of the archive template.
pub fn archive_ops(archive: &str, items: &Vec<String>) -> (r: Vec<Op>)
    ensures
        op_views(r@) == archive_spec(archive@, string_views(items@)),
{
    let a = trim(archive);
    let mut out: Vec<Op> = Vec::new();
    push_op(&mut out, Op::CreateDir { path: a.to_owned() });
    let ghost iv = string_views(items@);
    let mut i: usize = 0;
    while i < items.len()
        invariant
            iv == string_views(items@),
            a@ == trim_spec(archive@),
            i <= items@.len(),
            op_views(out@) == archive_spec(archive@, iv).take(i + 1),
        decreases items@.len() - i,
    {
        let name = basename_of(items[i].as_str());
        push_op(&mut out, Op::Move { src: items[i].clone(), dst: join2(a, name.as_str()) });
        assert(archive_spec(archive@, iv).take(i + 2) =~= archive_spec(archive@, iv).take(i + 1).push(
            archive_spec(archive@, iv)[i + 1],
        ));
        i = i + 1;
    }
    assert(archive_spec(archive@, iv).take(i + 1) =~= archive_spec(archive@, iv));
    out
}

/// Where an item goes when renamed to `name`: beside itself.
pub open spec fn renamed_dst(item: Seq<char>, name: Seq<char>) -> Seq<char> {
    match std_path_parent(item) {
        Some(p) => if p.len() > 0 {
            p + seq!['/'] + name
        } else {
            name
        },
        None => name,
    }
}

/// Rename: one move per item whose trimmed new name is not blank.
pub open spec fn rename_spec(items: Seq<Seq<char>>, names: Seq<Seq<char>>) -> Seq<OpView>
    decreases items.len(),
{
    if items.len() == 0 {
        seq![]
    } else {
        let rest = rename_spec(items.drop_last(), names);
        let i = items.len() - 1;
        if trim_spec(names[i]).len() == 0 {
            rest
        } else {
            rest.push(OpView::Move(items[i], renamed_dst(items[i], trim_spec(names[i]))))
        }
    }
}

/// The operations of the rename template.
pub fn rename_ops(items: &Vec<String>, new_names: &Vec<String>) -> (r: Vec<Op>)
    requires
        new_names@.len() == items@.len(),
    ensures
        op_views(r@) == rename_spec(string_views(items@), string_views(new_names@)),
{
    let ghost iv = string_views(items@);
    let ghost nv = string_views(new_names@);
    let mut out: Vec<Op> = Vec::new();
    let mut i: usize = 0;
    while i < items.len()
        invariant
            iv == string_views(items@),
            nv == string_views(new_names@),
            new_names@.len() == items@.len(),
            i <= items@.len(),
            op_views(out@) == rename_spec(iv.take(i as int), nv),
        decreases items@.len() - i,
    {
        let nn = trim(new_names[i].as_str());
        assert(iv.take(i + 1).drop_last() =~= iv.take(i as int));
        if nn.unicode_len() > 0 {
            let dst = match path_parent(items[i].as_str()) {
                Some(p) => if p.as_str().unicode_len() > 0 {
                    join2(p.as_str(), nn)
                } else {
                    nn.to_owned()
                },
                None => nn.to_owned(),
            };
            push_op(&mut out, Op::Move { src: items[i].clone(), dst });
        }
        i = i + 1;
    }
    assert(iv.take(i as int) =~= iv);
    out
}

/// Scaffold: one directory per entry.
pub fn scaffold_ops(dirs: &Vec<String>) -> (r: Vec<Op>)
    ensures
        op_views(r@) == string_views(dirs@).map_values(|d: Seq<char>| OpView::CreateDir(d)),
{
    let mut out: Vec<Op> = Vec::new();
    let mut i: usize = 0;
    while i < dirs.len()
        invariant
            i <= dirs@.len(),
            op_views(out@) == string_views(dirs@).take(i as int).map_values(|d: Seq<char>| OpView::CreateDir(d)),
        decreases dirs@.len() - i,
    {
        push_op(&mut out, Op::CreateDir { path: dirs[i].clone() });
        assert(string_views(dirs@).take(i + 1).map_values(|d: Seq<char>| OpView::CreateDir(d)) =~= string_views(
            dirs@,
        ).take(i as int).map_values(|d: Seq<char>| OpView::CreateDir(d)).push(OpView::CreateDir(dirs@[i as int]@)));
        i = i + 1;
    }
    assert(string_views(dirs@).take(i as int) =~= string_views(dirs@));
    out
}

} // verus!
