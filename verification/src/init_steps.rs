//! The decisions of `init`: how many numbered questions the dialogue asks,
//! how answers are read, what is shown of the chosen folder, and the report
//! of the files written.

use vstd::prelude::*;
use vstd::string::*;
use crate::fmt::{dec, push_decimal};
use crate::text::string_views;

verus! {

broadcast use vstd::seq::group_seq_axioms;

/// The number of numbered questions: the workspace root (when it was
/// detected rather than given), the no-repository confirmation (when there
/// is none), then either the re-initialization question and the writing step,
/// or the placement question.
pub open spec fn step_total_spec(has_workspace_step: bool, no_repos: bool, is_reinit: bool) -> int {
    (if has_workspace_step { 1int } else { 0 }) + (if no_repos { 1int } else { 0 }) + (if is_reinit { 2int } else { 1 })
}

pub fn compute_step_total(has_workspace_step: bool, no_repos: bool, is_reinit: bool) -> (r: usize)
    ensures
        r as int == step_total_spec(has_workspace_step, no_repos, is_reinit),
{
    let mut n: usize = 0;
    if has_workspace_step {
        n = n + 1;
    }
    if no_repos {
        n = n + 1;
    }
    if is_reinit {
        n = n + 2;
    } else {
        n = n + 1;
    }
    n
}

/// `[current/total] `.
pub open spec fn step_prefix_spec(current: nat, total: nat) -> Seq<char> {
    "["@ + dec(current) + "/"@ + dec(total) + "] "@
}

/// The number in front of a question.
pub fn step_prefix(current: usize, total: usize) -> (r: String)
    ensures
        r@ == step_prefix_spec(current as nat, total as nat),
{
    proof {
        reveal_strlit("[");
        reveal_strlit("/");
        reveal_strlit("] ");
    }
    let mut s = "[".to_owned();
    push_decimal(&mut s, current);
    s.append("/");
    push_decimal(&mut s, total);
    s.append("] ");
    s
}

/// Whether an answer is the letter `c` (given in lower case), in either case.
pub open spec fn answers(resp: Seq<char>, c: char) -> bool {
    resp.len() == 1 && (resp[0] == c || resp[0] as int + 32 == c as int)
}

/// Whether `resp` is the single letter `lower` (`'a'..='z'`) in either case,
/// as `eq_ignore_ascii_case` compares it.
pub fn answer_is(resp: &str, lower: char) -> (r: bool)
    requires
        'a' <= lower <= 'z',
    ensures
        r == answers(resp@, lower),
{
    if resp.unicode_len() != 1 {
        return false;
    }
    let c = resp.get_char(0);
    c == lower || (c as u32) + 32 == (lower as u32)
}

/// What is shown of the chosen folder: its path, up to four of its
/// repositories, how many more there are, and a blank line.
pub open spec fn repo_listing_spec(chosen: Seq<char>, names: Seq<Seq<char>>) -> Seq<Seq<char>> {
    let shown = if names.len() < 4 { names } else { names.take(4) };
    seq!["\u{2192} "@ + chosen] + shown.map_values(|n: Seq<char>| "    "@ + n + "/  \u{2713} git repo"@) + (if names.len()
        > 4 {
        seq!["    ... and "@ + dec((names.len() - 4) as nat) + " more"@]
    } else {
        seq![]
    }) + seq![seq![]]
}

/// The lines shown for the chosen folder `chosen` holding the repositories `names`.
pub fn repo_listing(chosen: &str, names: &Vec<String>) -> (r: Vec<String>)
    ensures
        string_views(r@) == repo_listing_spec(chosen@, string_views(names@)),
{
    proof {
        reveal_strlit("\u{2192} ");
        reveal_strlit("    ");
        reveal_strlit("/  \u{2713} git repo");
        reveal_strlit("    ... and ");
        reveal_strlit(" more");
    }
    let ghost nv = string_views(names@);
    let ghost shown = if nv.len() < 4 { nv } else { nv.take(4) };
    let mut out: Vec<String> = Vec::new();
    let mut head = "\u{2192} ".to_owned();
    head.append(chosen);
    out.push(head);
    let k: usize = if names.len() < 4 { names.len() } else { 4 };
    let mut i: usize = 0;
    while i < k
        invariant
            nv == string_views(names@),
            shown == (if nv.len() < 4 { nv } else { nv.take(4) }),
            k == shown.len(),
            i <= k,
            string_views(out@) == seq!["\u{2192} "@ + chosen@] + shown.take(i as int).map_values(
                |n: Seq<char>| "    "@ + n + "/  \u{2713} git repo"@,
            ),
        decreases k - i,
    {
        let mut l = "    ".to_owned();
        l.append(names[i].as_str());
        l.append("/  \u{2713} git repo");
        let ghost before = string_views(out@);
        out.push(l);
        assert(shown[i as int] == nv[i as int]);
        assert(shown.take(i + 1).map_values(|n: Seq<char>| "    "@ + n + "/  \u{2713} git repo"@) =~= shown.take(
            i as int,
        ).map_values(|n: Seq<char>| "    "@ + n + "/  \u{2713} git repo"@).push(l@));
        assert(string_views(out@) =~= before.push(l@));
        i = i + 1;
    }
    assert(shown.take(i as int) =~= shown);
    let ghost mid = string_views(out@);
    if names.len() > 4 {
        let mut l = "    ... and ".to_owned();
        push_decimal(&mut l, names.len() - 4);
        l.append(" more");
        out.push(l);
        out.push(String::new());
        assert(string_views(out@) =~= mid + seq![l@] + seq![seq![]]);
    } else {
        out.push(String::new());
        assert(string_views(out@) =~= mid + Seq::<Seq<char>>::empty() + seq![seq![]]);
    }
    out
}

/// The report after the files are written: a fresh set-up names the folder
/// and both configuration files; a re-initialization only the tool's
/// configuration; both say whether the ignore and acked files were created
/// or kept, and end with the workspace root and the next step.
pub open spec fn setup_report_spec(reinit: bool, ignore_created: bool, acked_created: bool, root: Seq<char>) -> Seq<Seq<char>> {
    (if reinit {
        seq![]
    } else {
        seq!["\u{2192} Created  .accelmars/"@]
    }) + seq![
        "\u{2192} Created  .accelmars/anchor/config.json  {\"schema_version\": \"1\"}"@,
        if ignore_created {
            "\u{2192} Created  .accelmars/anchor/ignore"@
        } else {
            "\u{2192} Skipped  .accelmars/anchor/ignore (already exists)"@
        },
        if acked_created {
            "\u{2192} Created  .accelmars/anchor/acked"@
        } else {
            "\u{2192} Skipped  .accelmars/anchor/acked (already exists)"@
        },
        seq![],
        "Done. Workspace root: "@ + root,
        "Next: run 'anchor validate' to check reference health."@,
    ]
}

/// The lines reported after set-up (or re-initialization when `reinit`).
pub fn setup_report(reinit: bool, ignore_created: bool, acked_created: bool, root: &str) -> (r: Vec<String>)
    ensures
        string_views(r@) == setup_report_spec(reinit, ignore_created, acked_created, root@),
{
    proof {
        reveal_strlit("\u{2192} Created  .accelmars/");
        reveal_strlit("\u{2192} Created  .accelmars/anchor/config.json  {\"schema_version\": \"1\"}");
        reveal_strlit("\u{2192} Created  .accelmars/anchor/ignore");
        reveal_strlit("\u{2192} Skipped  .accelmars/anchor/ignore (already exists)");
        reveal_strlit("\u{2192} Created  .accelmars/anchor/acked");
        reveal_strlit("\u{2192} Skipped  .accelmars/anchor/acked (already exists)");
        reveal_strlit("Done. Workspace root: ");
        reveal_strlit("Next: run 'anchor validate' to check reference health.");
    }
    let mut out: Vec<String> = Vec::new();
    if !reinit {
        out.push("\u{2192} Created  .accelmars/".to_owned());
    }
    out.push("\u{2192} Created  .accelmars/anchor/config.json  {\"schema_version\": \"1\"}".to_owned());
    if ignore_created {
        out.push("\u{2192} Created  .accelmars/anchor/ignore".to_owned());
    } else {
        out.push("\u{2192} Skipped  .accelmars/anchor/ignore (already exists)".to_owned());
    }
    if acked_created {
        out.push("\u{2192} Created  .accelmars/anchor/acked".to_owned());
    } else {
        out.push("\u{2192} Skipped  .accelmars/anchor/acked (already exists)".to_owned());
    }
    out.push(String::new());
    let mut d = "Done. Workspace root: ".to_owned();
    d.append(root);
    out.push(d);
    out.push("Next: run 'anchor validate' to check reference health.".to_owned());
    assert(string_views(out@) =~= setup_report_spec(reinit, ignore_created, acked_created, root@));
    out
}

} // verus!
