//! A migration plan: an ordered list of operations on the workspace.

use vstd::prelude::*;

verus! {

/// A literal or regular-expression substitution over workspace text files.
#[derive(Debug, Clone, PartialEq, Eq)]
pub struct TextRenameOp {
    /// The text (or pattern) to replace.
    pub from: String,
    /// The replacement; `$1`-style groups apply to patterns.
    pub to: String,
    /// Globs a file must match (all files when empty).
    pub include_paths: Vec<String>,
    /// Globs that exclude a file.
    pub exclude_paths: Vec<String>,
    /// File extensions to consider, with or without the leading dot.
    pub file_types: Vec<String>,
    /// `from` is plain text rather than a regular expression.
    pub literal: bool,
    /// Also substitute inside fenced code blocks.
    pub match_in_code_blocks: bool,
    /// Also substitute inside the YAML frontmatter.
    pub match_in_frontmatter: bool,
}

/// One plan operation.
#[derive(Debug, Clone, PartialEq, Eq)]
pub enum Op {
    /// Move (or rename) `src` to `dst`, rewriting references.
    Move { src: String, dst: String },
    /// Create the directory `path`.
    CreateDir { path: String },
    /// Substitute text across files.
    TextRename(TextRenameOp),
}

/// A plan file: format version, optional description, and the operations in order.
#[derive(Debug, Clone, PartialEq, Eq)]
pub struct Plan {
    pub version: String,
    pub description: Option<String>,
    pub ops: Vec<Op>,
}

} // verus!
