//! Plain data shared by the parser, the resolver and the rewrite planner.

use vstd::prelude::*;

verus! {

/// Workspace-root-relative path: forward slashes, no `./` prefix, no `..`.
pub type CanonicalPath = String;

/// The syntactic form a reference was written in.
#[derive(Debug, Clone, Copy, PartialEq, Eq, Structural)]
pub enum RefForm {
    /// `[text](path.md)` or `[text](path.md#anchor)`.
    Standard,
    /// `[[stem]]` or `[[stem|alias]]`.
    Wiki,
    /// A path-like inline code span: `` `dir/` ``.
    Backtick,
    /// `href="path"` or `href='path'`.
    HtmlHref,
    /// A `$(anchor root)/` string in YAML frontmatter.
    Yaml,
    /// A `$(anchor root)/` string in a TOML file.
    Toml,
}

/// One reference found in a file.
#[derive(Debug)]
pub struct Reference {
    /// Canonical path of the file that holds the reference.
    pub source_file: CanonicalPath,
    /// The target as written (anchor removed; wiki stems without `.md`).
    pub target_raw: String,
    /// Byte range `[start, end)` of the whole reference in the file content.
    pub span: (usize, usize),
    pub form: RefForm,
    /// The `#anchor` of a standard link, without the `#`.
    pub anchor: Option<String>,
}

/// One planned replacement of a byte span of a file.
#[derive(Debug)]
pub struct RewriteEntry {
    pub file: CanonicalPath,
    pub span: (usize, usize),
    pub old_text: String,
    pub new_text: String,
}

/// All replacements needed for one move of `src` to `dst`.
#[derive(Debug)]
pub struct RewritePlan {
    pub src: CanonicalPath,
    pub dst: CanonicalPath,
    pub entries: Vec<RewriteEntry>,
}

fn clone_opt_string(o: &Option<String>) -> (r: Option<String>)
    ensures
        r == *o,
{
    match o {
        Some(s) => Some(s.clone()),
        None => None,
    }
}

impl Clone for Reference {
    fn clone(&self) -> (r: Self)
        ensures
            r == *self,
    {
        Reference {
            source_file: self.source_file.clone(),
            target_raw: self.target_raw.clone(),
            span: self.span,
            form: self.form,
            anchor: clone_opt_string(&self.anchor),
        }
    }
}

impl Clone for RewriteEntry {
    fn clone(&self) -> (r: Self)
        ensures
            r == *self,
    {
        RewriteEntry {
            file: self.file.clone(),
            span: self.span,
            old_text: self.old_text.clone(),
            new_text: self.new_text.clone(),
        }
    }
}

} // verus!
