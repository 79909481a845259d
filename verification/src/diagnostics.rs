//! The per-entry text of a broken-reference report.

use vstd::prelude::*;
use vstd::string::*;
use crate::fmt::{dec, push_decimal};
use crate::suggest::{suggest_similar, suggestions_spec};

verus! {

/// The report lines of one broken reference:
///
/// ```text
///   {file}:{line}
///     → {target}  (target not found)
///     similar: {top}        (only when there is a close match)
/// ```
///
/// followed by a blank line. `top` is the best of `suggestions`.
pub open spec fn broken_ref_text(file: Seq<char>, line: nat, target: Seq<char>, suggestions: Seq<Seq<char>>) -> Seq<char> {
    let head = seq![' ', ' '] + file + seq![':'] + dec(line) + seq!['\n'] + seq![' ', ' ', ' ', ' ', '→', ' ']
        + target + seq![' ', ' ', '(', 't', 'a', 'r', 'g', 'e', 't', ' ', 'n', 'o', 't', ' ', 'f', 'o', 'u', 'n', 'd', ')', '\n'];
    let similar = if suggestions.len() > 0 {
        seq![' ', ' ', ' ', ' ', 's', 'i', 'm', 'i', 'l', 'a', 'r', ':', ' '] + suggestions[0] + seq!['\n']
    } else {
        seq![]
    };
    head + similar + seq!['\n']
}

/// Format the diagnostic lines for one broken reference; `candidates` is the
/// workspace file list searched for a similar path (pass a capped slice to
/// bound the cost on large workspaces).
pub fn format_broken_ref(file: &str, line: usize, target: &str, candidates: &[String]) -> (r: String)
    requires
        target.spec_bytes().len() < usize::MAX,
    ensures
        r@ == broken_ref_text(
            file@,
            line as nat,
            target@,
            suggestions_spec(target.spec_bytes(), candidates@),
        ),
{
    let suggestions = suggest_similar(target, candidates);
    let ghost sv = suggestions@.map_values(|s: String| s@);
    let indent = "  ";
    let colon = ":";
    let arrow = "\n    → ";
    let tail = "  (target not found)\n";
    let similar = "    similar: ";
    let nl = "\n";
    proof {
        reveal_strlit("  ");
        reveal_strlit(":");
        reveal_strlit("\n    → ");
        reveal_strlit("  (target not found)\n");
        reveal_strlit("    similar: ");
        reveal_strlit("\n");
    }
    let mut s = String::new();
    s.append(indent);
    s.append(file);
    s.append(colon);
    push_decimal(&mut s, line);
    s.append(arrow);
    s.append(target);
    s.append(tail);
    let ghost head = s@;
    if suggestions.len() > 0 {
        s.append(similar);
        s.append(suggestions[0].as_str());
        s.append(nl);
    }
    s.append(nl);
    assert(sv.len() == suggestions@.len());
    assert(suggestions@.len() > 0 ==> sv[0] == suggestions@[0]@);
    assert(s@ =~= broken_ref_text(file@, line as nat, target@, sv));
    s
}

} // verus!
