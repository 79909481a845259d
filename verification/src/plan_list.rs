//! The built-in plan templates and the `plan list` listing.

use vstd::prelude::*;
use vstd::string::*;
use crate::text::push_char;

verus! {

/// A plan template: id, display name and one-line description.
pub struct Template {
    pub id: &'static str,
    pub name: &'static str,
    pub description: &'static str,
}

/// The five built-in templates, in listing order, as `(id, description)`.
pub open spec fn builtin_templates() -> Seq<(Seq<char>, Seq<char>)> {
    seq![
        ("batch-move"@, "Explicit list of src→dst moves"@),
        ("categorize"@, "Group flat items under a parent folder"@),
        ("archive"@, "Move completed items to an archive location"@),
        ("rename"@, "Rename items by specifying new names"@),
        ("scaffold"@, "Create a directory structure"@),
    ]
}

pub open spec fn template_view(t: Template) -> (Seq<char>, Seq<char>) {
    (t.id@, t.description@)
}

/// The display names of the built-in templates, in listing order.
pub open spec fn builtin_names() -> Seq<Seq<char>> {
    seq!["Batch Move"@, "Categorize"@, "Archive"@, "Rename"@, "Scaffold"@]
}

/// The built-in templates.
pub fn templates() -> (r: Vec<Template>)
    ensures
        r@.map_values(|t: Template| template_view(t)) == builtin_templates(),
        r@.map_values(|t: Template| t.name@) == builtin_names(),
{
    let mut v: Vec<Template> = Vec::new();
    v.push(Template { id: "batch-move", name: "Batch Move", description: "Explicit list of src→dst moves" });
    v.push(Template { id: "categorize", name: "Categorize", description: "Group flat items under a parent folder" });
    v.push(Template { id: "archive", name: "Archive", description: "Move completed items to an archive location" });
    v.push(Template { id: "rename", name: "Rename", description: "Rename items by specifying new names" });
    v.push(Template { id: "scaffold", name: "Scaffold", description: "Create a directory structure" });
    assert(v@.map_values(|t: Template| template_view(t)) =~= builtin_templates());
    assert(v@.map_values(|t: Template| t.name@) =~= builtin_names());
    v
}

/// `s` padded with spaces on the right to at least `w` characters.
pub open spec fn pad_right(s: Seq<char>, w: nat) -> Seq<char> {
    if s.len() < w {
        s + Seq::new((w - s.len()) as nat, |i: int| ' ')
    } else {
        s
    }
}

/// One listing row: `  {id:<12}  {description}\n`.
pub open spec fn template_row(t: (Seq<char>, Seq<char>)) -> Seq<char> {
    seq![' ', ' '] + pad_right(t.0, 12) + seq![' ', ' '] + t.1 + seq!['\n']
}

pub open spec fn template_rows(ts: Seq<(Seq<char>, Seq<char>)>) -> Seq<char>
    decreases ts.len(),
{
    if ts.len() == 0 {
        seq![]
    } else {
        template_rows(ts.drop_last()) + template_row(ts.last())
    }
}

/// The `plan list` text: the built-in templates, then the (empty) workspace and user sections.
pub open spec fn listing_spec() -> Seq<char> {
    "BUILT-IN TEMPLATES\n"@ + template_rows(builtin_templates()) + "\nWORKSPACE TEMPLATES (.accelmars/templates/)\n  (none)\n\nUSER TEMPLATES (~/.config/anchor/templates/)\n  (none)\n"@
}

/// The three-section template listing of `plan list`.
pub fn format_output() -> (r: String)
    ensures
        r@ == listing_spec(),
{
    let ts = templates();
    let mut out = String::new();
    out.append("BUILT-IN TEMPLATES\n");
    let ghost head = out@;
    let ghost tv = ts@.map_values(|t: Template| template_view(t));
    let mut i: usize = 0;
    assert(tv.take(0) =~= Seq::<(Seq<char>, Seq<char>)>::empty());
    while i < ts.len()
        invariant
            tv == ts@.map_values(|t: Template| template_view(t)),
            0 <= i <= ts@.len(),
            out@ == head + template_rows(tv.take(i as int)),
        decreases ts@.len() - i,
    {
        let t = &ts[i];
        let ghost start = out@;
        out.append("  ");
        out.append(t.id);
        let idl = t.id.unicode_len();
        let mut k: usize = idl;
        while k < 12
            invariant
                idl == t.id@.len(),
                idl <= k <= 12 || (idl > 12 && k == idl),
                out@ == start + "  "@ + t.id@ + Seq::new((k - idl) as nat, |j: int| ' '),
            decreases 12 - k,
        {
            push_char(&mut out, ' ');
            assert(out@ =~= start + "  "@ + t.id@ + Seq::new((k + 1 - idl) as nat, |j: int| ' '));
            k = k + 1;
        }
        out.append("  ");
        out.append(t.description);
        push_char(&mut out, '\n');
        proof {
            reveal_strlit("  ");
            assert(tv.take(i + 1).drop_last() =~= tv.take(i as int));
            assert(tv.take(i + 1).last() == template_view(*t));
            if idl < 12 {
                assert(out@ =~= start + template_row(template_view(*t)));
            } else {
                assert(Seq::new((k - idl) as nat, |j: int| ' ') =~= Seq::<char>::empty());
                assert(out@ =~= start + template_row(template_view(*t)));
            }
        }
        i = i + 1;
    }
    assert(tv.take(i as int) =~= tv);
    out.append("\nWORKSPACE TEMPLATES (.accelmars/templates/)\n  (none)\n\nUSER TEMPLATES (~/.config/anchor/templates/)\n  (none)\n");
    out
}

} // verus!
