//! Plain data of the command surface: output formats, command arguments,
//! results and errors, with the text they render to.

use vstd::prelude::*;
use vstd::string::*;
use crate::fmt::{dec, push_decimal};
use crate::infra::TempError;
use crate::transaction::{CommitError, TransactionError, ValidationError};

verus! {

/// Output format of `file refs`.
#[derive(Debug, Clone, Copy, PartialEq, Eq, Structural)]
pub enum OutputFormat {
    Json,
}

/// Output format shared by the frontmatter subcommands.
#[derive(Debug, Clone, Copy, PartialEq, Eq, Structural)]
pub enum FmOutputFormat {
    Human,
    Json,
}

/// Output format of the frontmatter audit report.
#[derive(Debug, Clone, Copy, PartialEq, Eq, Structural)]
pub enum AuditFormat {
    Human,
    Json,
}

impl FmOutputFormat {
    /// The audit format with the same name.
    pub fn to_audit_format(self) -> (r: AuditFormat)
        ensures
            (self == FmOutputFormat::Human) == (r == AuditFormat::Human),
    {
        match self {
            FmOutputFormat::Human => AuditFormat::Human,
            FmOutputFormat::Json => AuditFormat::Json,
        }
    }
}

/// Output format of `text find` and `text verify`.
#[derive(Debug, Clone, Copy, PartialEq, Eq, Structural)]
pub enum FindFormat {
    Text,
    Json,
}

/// Arguments of `text find`.
#[derive(Debug)]
pub struct FindArgs {
    pub pattern: String,
    pub regex: bool,
    pub includes: Vec<String>,
    pub exclude: Vec<String>,
    pub file_types: Vec<String>,
    pub context: usize,
    pub format: FindFormat,
    pub include_code_blocks: bool,
    pub include_frontmatter: bool,
}

impl Default for FindArgs {
    /// A literal search of `.md` files with two lines of context, text output,
    /// code blocks excluded and frontmatter included.
    fn default() -> (r: Self)
        ensures
            r.pattern@.len() == 0,
            !r.regex,
            r.includes@.len() == 0,
            r.exclude@.len() == 0,
            r.file_types@.len() == 1,
            r.file_types@[0]@ == seq!['m', 'd'],
            r.context == 2,
            r.format == FindFormat::Text,
            !r.include_code_blocks,
            r.include_frontmatter,
    {
        let md = "md";
        proof {
            reveal_strlit("md");
        }
        let mut file_types: Vec<String> = Vec::new();
        file_types.push(md.to_owned());
        FindArgs {
            pattern: String::new(),
            regex: false,
            includes: Vec::new(),
            exclude: Vec::new(),
            file_types,
            context: 2,
            format: FindFormat::Text,
            include_code_blocks: false,
            include_frontmatter: true,
        }
    }
}

/// One match found by `text find`.
#[derive(Debug)]
pub struct Occurrence {
    pub file: String,
    pub line: usize,
    pub column: usize,
    pub match_text: String,
    pub context_before: Vec<String>,
    pub context_after: Vec<String>,
    pub in_code_block: bool,
    pub in_frontmatter: bool,
    pub compound_match: bool,
}

/// Arguments of `text verify`.
#[derive(Debug)]
pub struct VerifyArgs {
    pub pattern: String,
    pub regex: bool,
    pub includes: Vec<String>,
    pub exclude: Vec<String>,
    pub file_types: Vec<String>,
    pub include_code_blocks: bool,
    pub include_frontmatter: bool,
    pub allow: Vec<String>,
    pub allow_from: Option<String>,
    pub format: FindFormat,
}

impl Default for VerifyArgs {
    /// A literal check of `.md` files, code blocks excluded, frontmatter
    /// included, nothing allowed, text output.
    fn default() -> (r: Self)
        ensures
            r.pattern@.len() == 0,
            !r.regex,
            r.includes@.len() == 0,
            r.exclude@.len() == 0,
            r.file_types@.len() == 1,
            r.file_types@[0]@ == seq!['m', 'd'],
            !r.include_code_blocks,
            r.include_frontmatter,
            r.allow@.len() == 0,
            r.allow_from is None,
            r.format == FindFormat::Text,
    {
        let md = "md";
        proof {
            reveal_strlit("md");
        }
        let mut file_types: Vec<String> = Vec::new();
        file_types.push(md.to_owned());
        VerifyArgs {
            pattern: String::new(),
            regex: false,
            includes: Vec::new(),
            exclude: Vec::new(),
            file_types,
            include_code_blocks: false,
            include_frontmatter: true,
            allow: Vec::new(),
            allow_from: None,
            format: FindFormat::Text,
        }
    }
}

/// Hints that influence tenant selection in integrated mode.
pub struct ResolveHints {
    /// The value of the `--tenant` flag, if given.
    pub tenant_flag: Option<String>,
}

/// Errors of the init wizard.
#[derive(Debug)]
pub enum InitError {
    Io(std::io::Error),
    DirectoryNotFound(std::path::PathBuf),
    NotWritable(std::path::PathBuf),
    Aborted,
    NoCandidate,
}

/// Errors of `file mv`. Lock, workspace and scanner failures carry their message.
#[derive(Debug)]
pub enum MvError {
    SrcNotFound,
    DstExists,
    ConflictingFlags(String),
    Lock(String),
    Workspace(String),
    Scanner(String),
    Transaction(TransactionError),
    Validation(ValidationError),
    Commit(CommitError),
    Temp(TempError),
}

/// A drift between the frontmatter specification and its schema.
#[derive(Debug)]
pub struct Mismatch {
    /// The rule that failed: `BASE_REQUIRED`, `TYPE_CONDITIONAL` or `STATUS_SYNONYMS`.
    pub rule: &'static str,
    pub detail: String,
}

/// A single audit finding for one file.
#[derive(Debug)]
pub enum Finding {
    NoFrontmatter,
    MissingSchemaVersion,
    StaleSchemaVersion { current: i64, expected: i64 },
    MissingRequired(String),
    MissingTypeConditional(String),
    InvalidEnum { field: String, value: String, allowed: Vec<String> },
    WrongType { field: String, expected: String },
    DuplicateId(String),
}

} // verus!

verus! {

/// Strings joined with `, `.
pub open spec fn join_comma(v: Seq<Seq<char>>) -> Seq<char>
    decreases v.len(),
{
    if v.len() == 0 {
        seq![]
    } else if v.len() == 1 {
        v[0]
    } else {
        join_comma(v.drop_last()) + seq![',', ' '] + v.last()
    }
}

fn join_with_comma(v: &Vec<String>) -> (r: String)
    ensures
        r@ == join_comma(crate::text::string_views(v@)),
{
    let n = v.len();
    if n == 0 {
        return String::new();
    }
    let sep = ", ";
    proof {
        reveal_strlit(", ");
    }
    let mut out = v[0].clone();
    let mut i: usize = 1;
    assert(crate::text::string_views(v@).take(1) =~= seq![v@[0]@]);
    while i < n
        invariant
            n == v@.len(),
            1 <= i <= n,
            sep@ == seq![',', ' '],
            out@ == join_comma(crate::text::string_views(v@).take(i as int)),
        decreases n - i,
    {
        let ghost before = crate::text::string_views(v@).take(i as int);
        out.append(sep);
        out.append(v[i].as_str());
        proof {
            let after = crate::text::string_views(v@).take(i + 1);
            assert(after.drop_last() =~= before);
            assert(after.last() == v@[i as int]@);
        }
        i = i + 1;
    }
    assert(crate::text::string_views(v@).take(n as int) =~= crate::text::string_views(v@));
    out
}

/// Text of a signed integer.
pub open spec fn signed_dec(n: int) -> Seq<char> {
    if n < 0 {
        seq!['-'] + dec((-n) as nat)
    } else {
        dec(n as nat)
    }
}

fn push_i64(out: &mut String, n: i64)
    ensures
        final(out)@ == old(out)@ + signed_dec(n as int),
{
    if n < 0 {
        crate::text::push_char(out, '-');
        let m: u64 = if n == i64::MIN {
            9223372036854775808u64
        } else {
            (-n) as u64
        };
        crate::fmt::push_decimal_u64(out, m);
    } else {
        crate::fmt::push_decimal_u64(out, n as u64);
    }
}

impl Finding {
    /// The report category of the finding.
    pub fn category(&self) -> (r: &'static str)
        ensures
            r@ == finding_category(*self),
    {
        proof {
            reveal_strlit("no frontmatter");
            reveal_strlit("missing schema_version");
            reveal_strlit("stale schema_version");
            reveal_strlit("missing required base field");
            reveal_strlit("missing type-conditional field");
            reveal_strlit("invalid enum value");
            reveal_strlit("wrong field type");
            reveal_strlit("duplicate id");
        }
        match self {
            Finding::NoFrontmatter => "no frontmatter",
            Finding::MissingSchemaVersion => "missing schema_version",
            Finding::StaleSchemaVersion { .. } => "stale schema_version",
            Finding::MissingRequired(_) => "missing required base field",
            Finding::MissingTypeConditional(_) => "missing type-conditional field",
            Finding::InvalidEnum { .. } => "invalid enum value",
            Finding::WrongType { .. } => "wrong field type",
            Finding::DuplicateId(_) => "duplicate id",
        }
    }

    /// The one-line explanation of the finding.
    pub fn detail(&self) -> (r: String)
        ensures
            r@ == finding_detail(*self),
    {
        proof {
            reveal_strlit("no YAML frontmatter block");
            reveal_strlit("field 'schema_version' absent");
            reveal_strlit("schema_version ");
            reveal_strlit(" < expected ");
            reveal_strlit("required field '");
            reveal_strlit("' absent");
            reveal_strlit("type-conditional required field '");
            reveal_strlit("'");
            reveal_strlit("': '");
            reveal_strlit("' not in [");
            reveal_strlit("]");
            reveal_strlit("' must be of type ");
            reveal_strlit("id '");
            reveal_strlit("' appears in multiple files");
        }
        let mut out = String::new();
        match self {
            Finding::NoFrontmatter => {
                out.append("no YAML frontmatter block");
            },
            Finding::MissingSchemaVersion => {
                out.append("field 'schema_version' absent");
            },
            Finding::StaleSchemaVersion { current, expected } => {
                out.append("schema_version ");
                push_i64(&mut out, *current);
                out.append(" < expected ");
                push_i64(&mut out, *expected);
            },
            Finding::MissingRequired(f) => {
                out.append("required field '");
                out.append(f.as_str());
                out.append("' absent");
            },
            Finding::MissingTypeConditional(f) => {
                out.append("type-conditional required field '");
                out.append(f.as_str());
                out.append("' absent");
            },
            Finding::InvalidEnum { field, value, allowed } => {
                out.append("'");
                out.append(field.as_str());
                out.append("': '");
                out.append(value.as_str());
                out.append("' not in [");
                let joined = join_with_comma(allowed);
                out.append(joined.as_str());
                out.append("]");
            },
            Finding::WrongType { field, expected } => {
                out.append("'");
                out.append(field.as_str());
                out.append("' must be of type ");
                out.append(expected.as_str());
            },
            Finding::DuplicateId(id) => {
                out.append("id '");
                out.append(id.as_str());
                out.append("' appears in multiple files");
            },
        }
        out
    }
}

pub open spec fn finding_category(f: Finding) -> Seq<char> {
    match f {
        Finding::NoFrontmatter => "no frontmatter"@,
        Finding::MissingSchemaVersion => "missing schema_version"@,
        Finding::StaleSchemaVersion { .. } => "stale schema_version"@,
        Finding::MissingRequired(_) => "missing required base field"@,
        Finding::MissingTypeConditional(_) => "missing type-conditional field"@,
        Finding::InvalidEnum { .. } => "invalid enum value"@,
        Finding::WrongType { .. } => "wrong field type"@,
        Finding::DuplicateId(_) => "duplicate id"@,
    }
}

pub open spec fn finding_detail(f: Finding) -> Seq<char> {
    match f {
        Finding::NoFrontmatter => "no YAML frontmatter block"@,
        Finding::MissingSchemaVersion => "field 'schema_version' absent"@,
        Finding::StaleSchemaVersion { current, expected } => "schema_version "@ + signed_dec(current as int)
            + " < expected "@ + signed_dec(expected as int),
        Finding::MissingRequired(x) => "required field '"@ + x@ + "' absent"@,
        Finding::MissingTypeConditional(x) => "type-conditional required field '"@ + x@ + "' absent"@,
        Finding::InvalidEnum { field, value, allowed } => "'"@ + field@ + "': '"@ + value@ + "' not in ["@
            + join_comma(crate::text::string_views(allowed@)) + "]"@,
        Finding::WrongType { field, expected } => "'"@ + field@ + "' must be of type "@ + expected@,
        Finding::DuplicateId(id) => "id '"@ + id@ + "' appears in multiple files"@,
    }
}

} // verus!
