//! `plan validate`: check each operation of a plan against the workspace as
//! the earlier operations will have left it.

use vstd::prelude::*;
use vstd::string::*;
use crate::find::{regex_check, regex_error, regex_rejects};
use crate::fmt::{dec, push_decimal};
use crate::plan::{Op, Plan, TextRenameOp};
use crate::resolver::{path_parent, std_path_parent};
use crate::text::{str_eq, string_views};

verus! {

broadcast use vstd::seq::group_seq_axioms;

// ───────────────────────── paths ─────────────────────────

/// `root.join(rel)` as `std::path::Path::join` documents it: an absolute
/// `rel` replaces the root; otherwise a separator goes between them unless
/// the root is empty or already ends in one.
pub open spec fn join_spec(root: Seq<char>, rel: Seq<char>) -> Seq<char> {
    if rel.len() > 0 && rel[0] == '/' {
        rel
    } else if root.len() > 0 && root.last() != '/' {
        root + seq!['/'] + rel
    } else {
        root + rel
    }
}

/// Join a relative path onto the workspace root.
pub fn join_path(root: &str, rel: &str) -> (r: String)
    ensures
        r@ == join_spec(root@, rel@),
{
    let rl = rel.unicode_len();
    if rl > 0 && rel.get_char(0) == '/' {
        return rel.to_owned();
    }
    let n = root.unicode_len();
    let mut out = root.to_owned();
    if n > 0 && root.get_char(n - 1) != '/' {
        crate::text::push_char(&mut out, '/');
    }
    out.append(rel);
    out
}

/// What `std::path::Path::components` yields for a path, each component as
/// text (the root directory as `/`).
pub uninterp spec fn std_components(p: Seq<char>) -> Seq<Seq<char>>;

/// Calls `std::path::Path::components`; the result is named `std_components`.
#[verifier::external_body]
fn path_components(p: &str) -> (r: Vec<String>)
    ensures
        string_views(r@) == std_components(p@),
{
    std::path::Path::new(p).components().map(|c| c.as_os_str().to_string_lossy().into_owned()).collect()
}

/// A path as compared by `Path`'s equality: its components.
pub type PathKey = Seq<Seq<char>>;

pub open spec fn key_of(root: Seq<char>, rel: Seq<char>) -> PathKey {
    std_components(join_spec(root, rel))
}

pub open spec fn root_comp() -> Seq<char> {
    seq!['/']
}

/// `Path::parent` exists: there is a last component and it is not the root.
pub open spec fn has_parent(k: PathKey) -> bool {
    k.len() > 0 && k.last() != root_comp()
}

/// The first ancestor length that `Path::parent` can reach: the root stays.
pub open spec fn lowest_ancestor(k: PathKey) -> int {
    if k.len() > 0 && k[0] == root_comp() {
        1
    } else {
        0
    }
}

// ───────────────────────── the virtual workspace ─────────────────────────

/// Paths created and paths removed by the operations so far.
pub type VState = (Seq<PathKey>, Seq<PathKey>);

/// Whether `k` exists after the operations so far, `disk` telling whether it is on disk.
pub open spec fn exact_exists(k: PathKey, st: VState, disk: bool) -> bool {
    if st.1.contains(k) {
        false
    } else if st.0.contains(k) {
        true
    } else {
        disk
    }
}

/// Some ancestor of `k` that `Path::parent` reaches was created by an earlier operation.
pub open spec fn ancestor_created(k: PathKey, created: Seq<PathKey>) -> bool {
    exists|j: int| lowest_ancestor(k) <= j < k.len() && created.contains(#[trigger] k.take(j))
}

/// Facts about one operation's paths on disk: its source, its destination,
/// and its destination's parent exist.
pub type DiskFacts = (bool, bool, bool);

pub open spec fn op_msg(n: int, text: Seq<char>) -> Seq<char> {
    "operation "@ + dec(n as nat) + ": "@ + text
}

pub open spec fn opt_msg(b: bool, m: Seq<char>) -> Seq<Seq<char>> {
    if b {
        seq![m]
    } else {
        seq![]
    }
}

/// The destination-parent note of a move, if one is due.
pub open spec fn parent_note(root: Seq<char>, dst: Seq<char>, st: VState, disk: bool, n: int) -> Seq<Seq<char>> {
    let k = key_of(root, dst);
    let p = k.drop_last();
    if has_parent(k) && p.len() > 0 && !(exact_exists(p, st, disk) || ancestor_created(p, st.0)) {
        let rel = match std_path_parent(dst) {
            Some(x) => x,
            None => seq![],
        };
        seq![op_msg(n, "destination parent '"@ + rel + "' does not exist and will be created automatically"@)]
    } else {
        seq![]
    }
}

/// What the glob checks of `validate_globs` report for `patterns`.
pub open spec fn globs_result(root: Seq<char>, patterns: Seq<Seq<char>>) -> Option<Seq<char>> {
    match first_bad_glob(root, patterns, 0) {
        Some(e) => Some(e),
        None => match override_build_err(root, patterns) {
            Some(e) => Some("invalid glob: "@ + e),
            None => None,
        },
    }
}

pub open spec fn first_bad_glob(root: Seq<char>, patterns: Seq<Seq<char>>, i: int) -> Option<Seq<char>>
    decreases patterns.len() - i,
{
    if i < 0 || i >= patterns.len() {
        None
    } else {
        match override_add_err(root, patterns[i]) {
            Some(e) => Some("invalid glob pattern "@ + debug_text(patterns[i]) + ": "@ + e),
            None => first_bad_glob(root, patterns, i + 1),
        }
    }
}

/// The errors of a text rename operation.
pub open spec fn rename_errors(root: Seq<char>, t: TextRenameOp, n: int) -> Seq<Seq<char>> {
    opt_msg(t.from@.len() == 0, op_msg(n, "text_rename from must be non-empty"@)) + opt_msg(
        t.to@.len() == 0,
        op_msg(n, "text_rename to must be non-empty"@),
    ) + (if !t.literal && regex_rejects(t.from@) {
        seq![op_msg(n, "invalid text_rename regex: "@ + regex_error(t.from@))]
    } else {
        seq![]
    }) + match globs_result(root, string_views(t.include_paths@)) {
        Some(e) => seq![op_msg(n, "include_paths: "@ + e)],
        None => seq![],
    } + match globs_result(root, string_views(t.exclude_paths@)) {
        Some(e) => seq![op_msg(n, "exclude_paths: "@ + e)],
        None => seq![],
    }
}

/// The errors and notes of operation `op`, numbered `n`, and the state after it.
pub open spec fn op_step(root: Seq<char>, op: Op, disk: DiskFacts, st: VState, n: int) -> (
    Seq<Seq<char>>,
    Seq<Seq<char>>,
    VState,
) {
    match op {
        Op::Move { src, dst } => {
            let sk = key_of(root, src@);
            let dk = key_of(root, dst@);
            (
                opt_msg(!exact_exists(sk, st, disk.0), op_msg(n, "src not found: "@ + src@)) + opt_msg(
                    exact_exists(dk, st, disk.1),
                    op_msg(n, "dst already exists: "@ + dst@),
                ),
                parent_note(root, dst@, st, disk.2, n),
                (st.0.push(dk), st.1.push(sk)),
            )
        },
        Op::CreateDir { path } => (seq![], seq![], (st.0.push(key_of(root, path@)), st.1)),
        Op::TextRename(t) => (rename_errors(root, t, n), seq![], st),
    }
}

/// The errors and notes of operations `i..` of `ops`, starting from state `st`.
pub open spec fn validate_from(root: Seq<char>, ops: Seq<Op>, disk: Seq<DiskFacts>, i: int, st: VState) -> (
    Seq<Seq<char>>,
    Seq<Seq<char>>,
)
    decreases ops.len() - i,
{
    if i < 0 || i >= ops.len() {
        (seq![], seq![])
    } else {
        let (e, m, next) = op_step(root, ops[i], disk[i], st, i + 1);
        let (e2, m2) = validate_from(root, ops, disk, i + 1, next);
        (e + e2, m + m2)
    }
}

/// Errors and notes of a plan check; the plan is valid when there are no errors.
pub struct ValidationOutcome {
    pub errors: Vec<String>,
    pub notes: Vec<String>,
}

// ───────────────────────── outside checks ─────────────────────────

/// The text of the error `ignore::overrides::OverrideBuilder::add` reports
/// for `glob` on a builder rooted at `root`, or `None` when it accepts it.
pub uninterp spec fn override_add_err(root: Seq<char>, glob: Seq<char>) -> Option<Seq<char>>;

/// The text of the error `ignore::overrides::OverrideBuilder::build` reports
/// after all of `globs` were added, or `None`.
pub uninterp spec fn override_build_err(root: Seq<char>, globs: Seq<Seq<char>>) -> Option<Seq<char>>;

/// `format!("{:?}", s)`: `s` quoted and escaped.
pub uninterp spec fn debug_text(s: Seq<char>) -> Seq<char>;

/// Adds `glob` to a fresh `ignore::overrides::OverrideBuilder` rooted at
/// `root`; the error text is named `override_add_err`.
#[verifier::external_body]
pub(crate) fn glob_add_error(root: &str, glob: &str) -> (r: Option<String>)
    ensures
        match r {
            Some(e) => override_add_err(root@, glob@) == Some(e@),
            None => override_add_err(root@, glob@) is None,
        },
{
    ignore::overrides::OverrideBuilder::new(root).add(glob).err().map(|e| e.to_string())
}

/// Adds every glob to an `ignore::overrides::OverrideBuilder` rooted at
/// `root` and builds it; the error text is named `override_build_err`.
#[verifier::external_body]
pub(crate) fn glob_build_error(root: &str, globs: &Vec<String>) -> (r: Option<String>)
    ensures
        match r {
            Some(e) => override_build_err(root@, string_views(globs@)) == Some(e@),
            None => override_build_err(root@, string_views(globs@)) is None,
        },
{
    let mut builder = ignore::overrides::OverrideBuilder::new(root);
    for g in globs {
        let _ = builder.add(g);
    }
    builder.build().err().map(|e| e.to_string())
}

/// `format!("{:?}", s)`; the result is named `debug_text`.
#[verifier::external_body]
fn debug_string(s: &str) -> (r: String)
    ensures
        r@ == debug_text(s@),
{
    format!("{:?}", s)
}

/// Check glob patterns the way `text_rename` compiles them.
pub fn validate_globs(root: &str, patterns: &Vec<String>) -> (r: Result<(), String>)
    ensures
        match r {
            Ok(()) => globs_result(root@, string_views(patterns@)) is None,
            Err(e) => globs_result(root@, string_views(patterns@)) == Some(e@),
        },
{
    let ghost pv = string_views(patterns@);
    let mut i: usize = 0;
    while i < patterns.len()
        invariant
            pv == string_views(patterns@),
            i <= patterns@.len(),
            first_bad_glob(root@, pv, i as int) == first_bad_glob(root@, pv, 0),
        decreases patterns@.len() - i,
    {
        match glob_add_error(root, patterns[i].as_str()) {
            Some(e) => {
                let mut m = "invalid glob pattern ".to_owned();
                let d = debug_string(patterns[i].as_str());
                m.append(d.as_str());
                m.append(": ");
                m.append(e.as_str());
                proof {
                    reveal_strlit("invalid glob pattern ");
                    reveal_strlit(": ");
                }
                assert(m@ =~= "invalid glob pattern "@ + debug_text(pv[i as int]) + ": "@ + e@);
                return Err(m);
            },
            None => {},
        }
        i = i + 1;
    }
    match glob_build_error(root, patterns) {
        Some(e) => {
            let mut m = "invalid glob: ".to_owned();
            m.append(e.as_str());
            Err(m)
        },
        None => Ok(()),
    }
}

// ───────────────────────── keys ─────────────────────────

pub open spec fn key_views(v: Seq<Vec<String>>) -> Seq<PathKey> {
    v.map_values(|x: Vec<String>| string_views(x@))
}

/// Whether `c` equals the first `j` components of `k`.
fn prefix_eq(c: &Vec<String>, k: &Vec<String>, j: usize) -> (r: bool)
    requires
        j <= k@.len(),
    ensures
        r == (string_views(c@) == string_views(k@).take(j as int)),
{
    if c.len() != j {
        assert(string_views(c@).len() != string_views(k@).take(j as int).len());
        return false;
    }
    let mut i: usize = 0;
    while i < j
        invariant
            c@.len() == j,
            j <= k@.len(),
            i <= j,
            forall|q: int| 0 <= q < i ==> c@[q]@ == k@[q]@,
        decreases j - i,
    {
        if !str_eq(c[i].as_str(), k[i].as_str()) {
            assert(string_views(c@)[i as int] != string_views(k@).take(j as int)[i as int]);
            return false;
        }
        i = i + 1;
    }
    assert(string_views(c@) =~= string_views(k@).take(j as int));
    true
}

/// Whether `set` holds the first `j` components of `k`.
fn contains_prefix(set: &Vec<Vec<String>>, k: &Vec<String>, j: usize) -> (r: bool)
    requires
        j <= k@.len(),
    ensures
        r == key_views(set@).contains(string_views(k@).take(j as int)),
{
    let ghost target = string_views(k@).take(j as int);
    let mut i: usize = 0;
    while i < set.len()
        invariant
            j <= k@.len(),
            target == string_views(k@).take(j as int),
            i <= set@.len(),
            forall|q: int| 0 <= q < i ==> key_views(set@)[q] != target,
        decreases set@.len() - i,
    {
        if prefix_eq(&set[i], k, j) {
            assert(key_views(set@)[i as int] == target);
            return true;
        }
        i = i + 1;
    }
    false
}

/// Whether `set` holds `k`.
fn contains_key(set: &Vec<Vec<String>>, k: &Vec<String>) -> (r: bool)
    ensures
        r == key_views(set@).contains(string_views(k@)),
{
    assert(string_views(k@).take(k@.len() as int) =~= string_views(k@));
    contains_prefix(set, k, k.len())
}

fn exists_now(k: &Vec<String>, created: &Vec<Vec<String>>, removed: &Vec<Vec<String>>, disk: bool) -> (r: bool)
    ensures
        r == exact_exists(string_views(k@), (key_views(created@), key_views(removed@)), disk),
{
    if contains_key(removed, k) {
        false
    } else if contains_key(created, k) {
        true
    } else {
        disk
    }
}

fn ancestor_created_exec(k: &Vec<String>, created: &Vec<Vec<String>>) -> (r: bool)
    ensures
        r == ancestor_created(string_views(k@), key_views(created@)),
{
    let ghost kv = string_views(k@);
    let lo: usize = if k.len() > 0 && str_eq(k[0].as_str(), "/") {
        1
    } else {
        0
    };
    proof {
        reveal_strlit("/");
        if k@.len() > 0 {
            assert(kv[0] == k@[0]@);
            assert("/"@ =~= root_comp());
        }
    }
    assert(lo == lowest_ancestor(kv));
    let mut j: usize = lo;
    while j < k.len()
        invariant
            kv == string_views(k@),
            lo == lowest_ancestor(kv),
            lo <= j <= k@.len(),
            forall|q: int| lo <= q < j ==> !key_views(created@).contains(#[trigger] kv.take(q)),
        decreases k@.len() - j,
    {
        if contains_prefix(created, k, j) {
            return true;
        }
        j = j + 1;
    }
    false
}

fn drop_last_key(k: &Vec<String>) -> (r: Vec<String>)
    requires
        k@.len() > 0,
    ensures
        string_views(r@) == string_views(k@).drop_last(),
{
    let mut out: Vec<String> = Vec::new();
    let mut i: usize = 0;
    while i < k.len() - 1
        invariant
            k@.len() > 0,
            i + 1 <= k@.len(),
            string_views(out@) == string_views(k@).take(i as int),
        decreases k@.len() - i,
    {
        let ghost before = string_views(out@);
        out.push(k[i].clone());
        assert(string_views(out@) =~= before.push(k@[i as int]@));
        assert(string_views(k@).take(i + 1) =~= string_views(k@).take(i as int).push(k@[i as int]@));
        i = i + 1;
    }
    assert(string_views(k@).take(i as int) =~= string_views(k@).drop_last());
    out
}

fn key_for(root: &str, rel: &str) -> (r: Vec<String>)
    ensures
        string_views(r@) == key_of(root@, rel@),
{
    let joined = join_path(root, rel);
    path_components(joined.as_str())
}

fn op_message(n: usize, text: &str) -> (r: String)
    ensures
        r@ == op_msg(n as int, text@),
{
    let mut m = "operation ".to_owned();
    push_decimal(&mut m, n);
    m.append(": ");
    m.append(text);
    proof {
        reveal_strlit("operation ");
        reveal_strlit(": ");
    }
    assert(m@ =~= op_msg(n as int, text@));
    m
}

// ───────────────────────── the check ─────────────────────────

fn cat2(a: &str, b: &str) -> (r: String)
    ensures
        r@ == a@ + b@,
{
    let mut m = a.to_owned();
    m.append(b);
    m
}

fn push_msg(out: &mut Vec<String>, m: String)
    ensures
        string_views(final(out)@) == string_views(old(out)@).push(m@),
{
    let ghost before = string_views(out@);
    out.push(m);
    assert(string_views(out@) =~= before.push(m@));
}

/// The errors of a text rename operation numbered `n`.
pub fn rename_op_errors(root: &str, t: &TextRenameOp, n: usize) -> (r: Vec<String>)
    ensures
        string_views(r@) == rename_errors(root@, *t, n as int),
{
    let mut out: Vec<String> = Vec::new();
    proof {
        reveal_strlit("text_rename from must be non-empty");
        reveal_strlit("text_rename to must be non-empty");
        reveal_strlit("invalid text_rename regex: ");
        reveal_strlit("include_paths: ");
        reveal_strlit("exclude_paths: ");
    }
    if t.from.as_str().unicode_len() == 0 {
        push_msg(&mut out, op_message(n, "text_rename from must be non-empty"));
    }
    if t.to.as_str().unicode_len() == 0 {
        push_msg(&mut out, op_message(n, "text_rename to must be non-empty"));
    }
    let ghost a = string_views(out@);
    assert(a =~= opt_msg(t.from@.len() == 0, op_msg(n as int, "text_rename from must be non-empty"@)) + opt_msg(
        t.to@.len() == 0,
        op_msg(n as int, "text_rename to must be non-empty"@),
    ));
    if !t.literal {
        match regex_check(t.from.as_str()) {
            Err(e) => push_msg(&mut out, op_message(n, cat2("invalid text_rename regex: ", e.as_str()).as_str())),
            Ok(()) => {},
        }
    }
    let ghost b = string_views(out@);
    match validate_globs(root, &t.include_paths) {
        Err(e) => push_msg(&mut out, op_message(n, cat2("include_paths: ", e.as_str()).as_str())),
        Ok(()) => {},
    }
    let ghost c = string_views(out@);
    match validate_globs(root, &t.exclude_paths) {
        Err(e) => push_msg(&mut out, op_message(n, cat2("exclude_paths: ", e.as_str()).as_str())),
        Ok(()) => {},
    }
    assert(string_views(out@) =~= rename_errors(root@, *t, n as int));
    out
}

/// The whole check from operation `i` on, as the loop sees it.
pub open spec fn plan_outcome(root: Seq<char>, ops: Seq<Op>, disk: Seq<DiskFacts>) -> (Seq<Seq<char>>, Seq<Seq<char>>) {
    validate_from(root, ops, disk, 0, (seq![], seq![]))
}

/// Check every operation of `plan` against the workspace at `workspace_root`
/// as the earlier operations leave it: a move needs its source and must not
/// overwrite its destination; a missing destination parent earns a note
/// unless an earlier operation creates it or an ancestor; a text rename needs
/// non-empty texts, a compiling pattern and valid globs. `disk[i]` tells
/// whether operation `i`'s source, destination and destination parent exist
/// on disk.
pub fn validate_plan(plan: &Plan, workspace_root: &str, disk: &Vec<DiskFacts>) -> (r: ValidationOutcome)
    requires
        disk@.len() == plan.ops@.len(),
    ensures
        string_views(r.errors@) == plan_outcome(workspace_root@, plan.ops@, disk@).0,
        string_views(r.notes@) == plan_outcome(workspace_root@, plan.ops@, disk@).1,
{
    let ghost root = workspace_root@;
    let ghost ops = plan.ops@;
    let mut errors: Vec<String> = Vec::new();
    let mut notes: Vec<String> = Vec::new();
    let mut created: Vec<Vec<String>> = Vec::new();
    let mut removed: Vec<Vec<String>> = Vec::new();
    let mut i: usize = 0;
    assert(key_views(created@) =~= Seq::<PathKey>::empty());
    assert(key_views(removed@) =~= Seq::<PathKey>::empty());
    assert(string_views(errors@) + plan_outcome(root, ops, disk@).0 =~= plan_outcome(root, ops, disk@).0);
    assert(string_views(notes@) + plan_outcome(root, ops, disk@).1 =~= plan_outcome(root, ops, disk@).1);
    while i < plan.ops.len()
        invariant
            root == workspace_root@,
            ops == plan.ops@,
            disk@.len() == ops.len(),
            i <= ops.len(),
            string_views(errors@) + validate_from(root, ops, disk@, i as int, (key_views(created@), key_views(removed@))).0
                == plan_outcome(root, ops, disk@).0,
            string_views(notes@) + validate_from(root, ops, disk@, i as int, (key_views(created@), key_views(removed@))).1
                == plan_outcome(root, ops, disk@).1,
        decreases ops.len() - i,
    {
        let n = i + 1;
        let ghost st = (key_views(created@), key_views(removed@));
        let ghost step = op_step(root, ops[i as int], disk@[i as int], st, n as int);
        let ghost e0 = string_views(errors@);
        let ghost m0 = string_views(notes@);
        let (d_src, d_dst, d_parent) = disk[i];
        assert(disk@[i as int] == (d_src, d_dst, d_parent));
        match &plan.ops[i] {
            Op::Move { src, dst } => {
                let sk = key_for(workspace_root, src.as_str());
                let dk = key_for(workspace_root, dst.as_str());
                proof {
                    reveal_strlit("src not found: ");
                    reveal_strlit("dst already exists: ");
                    reveal_strlit("destination parent '");
                    reveal_strlit("' does not exist and will be created automatically");
                }
                if !exists_now(&sk, &created, &removed, d_src) {
                    push_msg(&mut errors, op_message(n, cat2("src not found: ", src.as_str()).as_str()));
                }
                if exists_now(&dk, &created, &removed, d_dst) {
                    push_msg(&mut errors, op_message(n, cat2("dst already exists: ", dst.as_str()).as_str()));
                }
                assert(string_views(errors@) =~= e0 + step.0);
                let dl = dk.len();
                if dl > 0 && !str_eq(dk[dl - 1].as_str(), "/") {
                    let p = drop_last_key(&dk);
                    if p.len() > 0 && !(exists_now(&p, &created, &removed, d_parent) || ancestor_created_exec(&p, &created)) {
                        let rel = match path_parent(dst.as_str()) {
                            Some(x) => x,
                            None => String::new(),
                        };
                        let mut text = cat2("destination parent '", rel.as_str());
                        text.append("' does not exist and will be created automatically");
                        push_msg(&mut notes, op_message(n, text.as_str()));
                    }
                }
                proof {
                    reveal_strlit("/");
                    let kv = string_views(dk@);
                    if dk@.len() > 0 {
                        assert(kv.last() == dk@[dk@.len() - 1]@);
                    }
                    assert("/"@ =~= root_comp());
                }
                assert(string_views(notes@) =~= m0 + step.1);
                let ghost cv = key_views(created@);
                let ghost rv = key_views(removed@);
                removed.push(sk);
                created.push(dk);
                assert(key_views(created@) =~= cv.push(key_of(root, dst@)));
                assert(key_views(removed@) =~= rv.push(key_of(root, src@)));
            },
            Op::CreateDir { path } => {
                let k = key_for(workspace_root, path.as_str());
                let ghost cv = key_views(created@);
                created.push(k);
                assert(key_views(created@) =~= cv.push(key_of(root, path@)));
                assert(string_views(errors@) =~= e0 + step.0);
                assert(string_views(notes@) =~= m0 + step.1);
            },
            Op::TextRename(t) => {
                let errs = rename_op_errors(workspace_root, t, n);
                let mut k: usize = 0;
                while k < errs.len()
                    invariant
                        k <= errs@.len(),
                        string_views(errors@) == e0 + string_views(errs@).take(k as int),
                    decreases errs@.len() - k,
                {
                    let ghost before = string_views(errors@);
                    errors.push(errs[k].clone());
                    assert(string_views(errors@) =~= before.push(errs@[k as int]@));
                    assert(string_views(errs@).take(k + 1) =~= string_views(errs@).take(k as int).push(
                        errs@[k as int]@,
                    ));
                    k = k + 1;
                }
                assert(string_views(errs@).take(k as int) =~= string_views(errs@));
                assert(string_views(errors@) =~= e0 + step.0);
                assert(string_views(notes@) =~= m0 + step.1);
            },
        }
        proof {
            let (e2, m2) = validate_from(root, ops, disk@, i + 1, step.2);
            assert(validate_from(root, ops, disk@, i as int, st) == (step.0 + e2, step.1 + m2));
            assert(step.2 == (key_views(created@), key_views(removed@)));
            assert(e0 + (step.0 + e2) =~= (e0 + step.0) + e2);
            assert(m0 + (step.1 + m2) =~= (m0 + step.1) + m2);
        }
        i = i + 1;
    }
    ValidationOutcome { errors, notes }
}

// ───────────────────────── laws ─────────────────────────

/// After a move, later checks see its source gone and, unless an earlier move
/// took a path of the same name away, its destination present, whatever the
/// disk says.
pub proof fn moves_are_seen_by_later_operations(
    root: Seq<char>,
    src: String,
    dst: String,
    disk: DiskFacts,
    st: VState,
    n: int,
    later_disk: bool,
)
    ensures
        ({
            let next = op_step(root, Op::Move { src, dst }, disk, st, n).2;
            &&& !exact_exists(key_of(root, src@), next, later_disk)
            &&& (!st.1.contains(key_of(root, dst@)) && key_of(root, src@) != key_of(root, dst@)) ==> exact_exists(
                key_of(root, dst@),
                next,
                later_disk,
            )
        }),
{
    let next = op_step(root, Op::Move { src, dst }, disk, st, n).2;
    let sk = key_of(root, src@);
    let dk = key_of(root, dst@);
    assert(next.1.last() == sk);
    assert(next.1.contains(sk));
    if !st.1.contains(dk) && sk != dk {
        assert(next.0.last() == dk);
        assert(next.0.contains(dk));
        assert forall|q: int| 0 <= q < next.1.len() implies next.1[q] != dk by {
            if q < st.1.len() {
                assert(next.1[q] == st.1[q]);
            }
        }
    }
}

/// No operation forgets a path that an earlier one created.
pub proof fn created_paths_persist(root: Seq<char>, op: Op, disk: DiskFacts, st: VState, n: int, k: PathKey)
    requires
        st.0.contains(k),
    ensures
        op_step(root, op, disk, st, n).2.0.contains(k),
{
    let next = op_step(root, op, disk, st, n).2;
    let q = choose|q: int| 0 <= q < st.0.len() && st.0[q] == k;
    assert(next.0[q] == k);
}

/// A move into a directory that an earlier operation created (and no move
/// took away) earns no destination-parent note.
pub proof fn created_parent_suppresses_note(root: Seq<char>, dst: Seq<char>, st: VState, disk: bool, n: int)
    requires
        st.0.contains(key_of(root, dst).drop_last()),
        !st.1.contains(key_of(root, dst).drop_last()),
    ensures
        parent_note(root, dst, st, disk, n) == Seq::<Seq<char>>::empty(),
{
}

/// A move below a directory that an earlier operation created, at any depth,
/// earns no destination-parent note.
pub proof fn created_ancestor_suppresses_note(root: Seq<char>, dst: Seq<char>, st: VState, disk: bool, n: int, j: int)
    requires
        lowest_ancestor(key_of(root, dst).drop_last()) <= j < key_of(root, dst).drop_last().len(),
        st.0.contains(key_of(root, dst).drop_last().take(j)),
    ensures
        parent_note(root, dst, st, disk, n) == Seq::<Seq<char>>::empty(),
{
    let p = key_of(root, dst).drop_last();
    assert(ancestor_created(p, st.0));
}

} // verus!
