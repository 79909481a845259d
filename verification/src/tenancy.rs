//! Tenants of an integrated workspace: which tenant a command works on, by
//! the precedence ladder flag, environment, current folder, default in the
//! outer manifest, single tenant.

use vstd::prelude::*;
use vstd::string::*;
use crate::plan_validate::{join_path, join_spec};
use crate::text::{str_eq, string_views};

verus! {

broadcast use vstd::seq::group_seq_axioms;

/// Errors of workspace discovery and tenant selection.
#[derive(Debug)]
pub enum WorkspaceError {
    /// No `.accelmars/` folder anywhere up the folder tree.
    NotFound,
    /// Reading the file system failed; the error's text.
    IoError(String),
    /// The workspace configuration names a schema version this version does not support.
    UnsupportedSchemaVersion(String),
    /// The workspace configuration does not parse; the parser's message.
    InvalidConfig(String),
    /// Several tenants exist and none could be chosen.
    AmbiguousTenant(Vec<String>),
    /// A tenant was named (flag or environment) that does not exist.
    TenantNotFound(String),
}

/// Strings joined with `, `.
pub open spec fn join_list(v: Seq<Seq<char>>) -> Seq<char>
    decreases v.len(),
{
    if v.len() == 0 {
        seq![]
    } else if v.len() == 1 {
        v[0]
    } else {
        join_list(v.drop_last()) + ", "@ + v.last()
    }
}

fn join_comma_exec(v: &Vec<String>) -> (r: String)
    ensures
        r@ == join_list(string_views(v@)),
{
    let ghost vv = string_views(v@);
    let mut out = String::new();
    let mut i: usize = 0;
    proof {
        reveal_strlit(", ");
    }
    assert(vv.take(0) =~= Seq::<Seq<char>>::empty());
    while i < v.len()
        invariant
            vv == string_views(v@),
            i <= vv.len(),
            out@ == join_list(vv.take(i as int)),
        decreases vv.len() - i,
    {
        let ghost t = vv.take(i + 1);
        assert(t.drop_last() =~= vv.take(i as int));
        assert(t.last() == vv[i as int]);
        if i > 0 {
            out.append(", ");
        } else {
            assert(vv.take(i as int).len() == 0);
        }
        out.append(v[i].as_str());
        i = i + 1;
    }
    assert(vv.take(i as int) =~= vv);
    out
}

/// What a workspace error says to the user.
pub open spec fn describe_spec(e: WorkspaceError) -> Seq<char> {
    match e {
        WorkspaceError::NotFound => "no workspace found. Run 'anchor init' to configure."@,
        WorkspaceError::IoError(m) => "I/O error: "@ + m@,
        WorkspaceError::UnsupportedSchemaVersion(v) => "anchor workspace schema version \""@ + v@
            + "\" is not supported by this version of anchor.\nPlease upgrade: https://github.com/accelmars/anchor"@,
        WorkspaceError::InvalidConfig(m) => "invalid config.json: "@ + m@,
        WorkspaceError::AmbiguousTenant(slugs) => "multiple tenants exist ("@ + join_list(string_views(slugs@))
            + "); specify --tenant=<slug> or cd into one"@,
        WorkspaceError::TenantNotFound(slug) => "tenant \""@ + slug@ + "\" not found in .accelmars/"@,
    }
}

impl WorkspaceError {
    /// The message shown for the error.
    pub fn describe(&self) -> (r: String)
        ensures
            r@ == describe_spec(*self),
    {
        proof {
            reveal_strlit("no workspace found. Run 'anchor init' to configure.");
            reveal_strlit("I/O error: ");
            reveal_strlit("anchor workspace schema version \"");
            reveal_strlit("\" is not supported by this version of anchor.\nPlease upgrade: https://github.com/accelmars/anchor");
            reveal_strlit("invalid config.json: ");
            reveal_strlit("multiple tenants exist (");
            reveal_strlit("); specify --tenant=<slug> or cd into one");
            reveal_strlit("tenant \"");
            reveal_strlit("\" not found in .accelmars/");
        }
        match self {
            WorkspaceError::NotFound => "no workspace found. Run 'anchor init' to configure.".to_owned(),
            WorkspaceError::IoError(m) => {
                let mut s = "I/O error: ".to_owned();
                s.append(m.as_str());
                s
            },
            WorkspaceError::UnsupportedSchemaVersion(v) => {
                let mut s = "anchor workspace schema version \"".to_owned();
                s.append(v.as_str());
                s.append("\" is not supported by this version of anchor.\nPlease upgrade: https://github.com/accelmars/anchor");
                s
            },
            WorkspaceError::InvalidConfig(m) => {
                let mut s = "invalid config.json: ".to_owned();
                s.append(m.as_str());
                s
            },
            WorkspaceError::AmbiguousTenant(slugs) => {
                let mut s = "multiple tenants exist (".to_owned();
                let j = join_comma_exec(slugs);
                s.append(j.as_str());
                s.append("); specify --tenant=<slug> or cd into one");
                s
            },
            WorkspaceError::TenantNotFound(slug) => {
                let mut s = "tenant \"".to_owned();
                s.append(slug.as_str());
                s.append("\" not found in .accelmars/");
                s
            },
        }
    }
}

/// Whether `std::path::Path::starts_with` holds of `path` and `base`: `base`
/// is a prefix of `path`, whole components only.
pub uninterp spec fn std_starts_with(path: Seq<char>, base: Seq<char>) -> bool;

/// `Path::new(path).starts_with(base)`; named `std_starts_with`.
#[verifier::external_body]
pub(crate) fn path_starts_with(path: &str, base: &str) -> (r: bool)
    ensures
        r == std_starts_with(path@, base@),
{
    std::path::Path::new(path).starts_with(base)
}

/// The first of `slugs` whose tenant folder under `dot` holds `cwd`.
pub open spec fn cwd_slug(slugs: Seq<Seq<char>>, dot: Seq<char>, cwd: Seq<char>, i: int) -> Option<Seq<char>>
    decreases slugs.len() - i,
{
    if i < 0 || i >= slugs.len() {
        None
    } else if std_starts_with(cwd, join_spec(dot, slugs[i])) {
        Some(slugs[i])
    } else {
        cwd_slug(slugs, dot, cwd, i + 1)
    }
}

/// How a tenant choice ends.
pub enum SlugChoice {
    Chosen(Seq<char>),
    /// The flag or environment named a tenant that does not exist.
    Missing(Seq<char>),
    Ambiguous,
}

/// The tenant chosen, by the ladder: the flag (which must name a tenant); a
/// non-empty environment value (likewise); the tenant whose folder holds the
/// current folder; the outer manifest's default when it names a tenant; the
/// only tenant; otherwise ambiguity.
pub open spec fn slug_spec(
    flag: Option<Seq<char>>,
    env: Option<Seq<char>>,
    slugs: Seq<Seq<char>>,
    dot: Seq<char>,
    cwd: Seq<char>,
    default_tenant: Option<Seq<char>>,
) -> SlugChoice {
    match flag {
        Some(f) => if slugs.contains(f) {
            SlugChoice::Chosen(f)
        } else {
            SlugChoice::Missing(f)
        },
        None => match env {
            Some(e) if e.len() > 0 => if slugs.contains(e) {
                SlugChoice::Chosen(e)
            } else {
                SlugChoice::Missing(e)
            },
            _ => match cwd_slug(slugs, dot, cwd, 0) {
                Some(s) => SlugChoice::Chosen(s),
                None => match default_tenant {
                    Some(d) if slugs.contains(d) => SlugChoice::Chosen(d),
                    _ => if slugs.len() == 1 {
                        SlugChoice::Chosen(slugs[0])
                    } else {
                        SlugChoice::Ambiguous
                    },
                },
            },
        },
    }
}

fn contains_string(v: &Vec<String>, s: &str) -> (r: bool)
    ensures
        r == string_views(v@).contains(s@),
{
    let ghost vv = string_views(v@);
    let mut i: usize = 0;
    while i < v.len()
        invariant
            vv == string_views(v@),
            i <= vv.len(),
            forall|j: int| 0 <= j < i ==> vv[j] != s@,
        decreases vv.len() - i,
    {
        if str_eq(v[i].as_str(), s) {
            assert(vv[i as int] == s@);
            return true;
        }
        i = i + 1;
    }
    false
}

fn clone_strings(v: &Vec<String>) -> (r: Vec<String>)
    ensures
        string_views(r@) == string_views(v@),
{
    let mut out: Vec<String> = Vec::new();
    let mut i: usize = 0;
    while i < v.len()
        invariant
            i <= v@.len(),
            string_views(out@) == string_views(v@).take(i as int),
        decreases v@.len() - i,
    {
        let ghost before = string_views(out@);
        out.push(v[i].clone());
        assert(string_views(out@) =~= before.push(v@[i as int]@));
        assert(string_views(v@).take(i + 1) =~= string_views(v@).take(i as int).push(v@[i as int]@));
        i = i + 1;
    }
    assert(string_views(v@).take(i as int) =~= string_views(v@));
    out
}

/// Choose the tenant of an integrated workspace whose `.accelmars/` folder is
/// `dot_accelmars` and whose tenants are `slugs`, for a command run in `cwd`
/// with the `--tenant` flag `flag`, the tenant environment variable `env_slug`
/// and the outer manifest's `default_tenant`.
pub fn resolve_slug(
    flag: Option<&str>,
    env_slug: Option<&str>,
    slugs: &Vec<String>,
    dot_accelmars: &str,
    cwd: &str,
    default_tenant: Option<&str>,
) -> (r: Result<String, WorkspaceError>)
    ensures
        ({
            let want = slug_spec(
                match flag {
                    Some(f) => Some(f@),
                    None => None,
                },
                match env_slug {
                    Some(e) => Some(e@),
                    None => None,
                },
                string_views(slugs@),
                dot_accelmars@,
                cwd@,
                match default_tenant {
                    Some(d) => Some(d@),
                    None => None,
                },
            );
            match r {
                Ok(s) => want == SlugChoice::Chosen(s@),
                Err(WorkspaceError::TenantNotFound(s)) => want == SlugChoice::Missing(s@),
                Err(WorkspaceError::AmbiguousTenant(all)) => want == SlugChoice::Ambiguous && string_views(all@)
                    == string_views(slugs@),
                Err(_) => false,
            }
        }),
{
    let ghost sv = string_views(slugs@);
    if let Some(f) = flag {
        if contains_string(slugs, f) {
            return Ok(f.to_owned());
        } else {
            return Err(WorkspaceError::TenantNotFound(f.to_owned()));
        }
    }
    if let Some(e) = env_slug {
        if e.unicode_len() > 0 {
            if contains_string(slugs, e) {
                return Ok(e.to_owned());
            } else {
                return Err(WorkspaceError::TenantNotFound(e.to_owned()));
            }
        }
    }
    let mut i: usize = 0;
    while i < slugs.len()
        invariant
            sv == string_views(slugs@),
            i <= sv.len(),
            flag is None,
            match env_slug {
                Some(e) => e@.len() == 0,
                None => true,
            },
            cwd_slug(sv, dot_accelmars@, cwd@, i as int) == cwd_slug(sv, dot_accelmars@, cwd@, 0),
        decreases sv.len() - i,
    {
        let root = join_path(dot_accelmars, slugs[i].as_str());
        if path_starts_with(cwd, root.as_str()) {
            return Ok(slugs[i].clone());
        }
        i = i + 1;
    }
    if let Some(d) = default_tenant {
        if contains_string(slugs, d) {
            return Ok(d.to_owned());
        }
    }
    if slugs.len() == 1 {
        return Ok(slugs[0].clone());
    }
    Err(WorkspaceError::AmbiguousTenant(clone_strings(slugs)))
}

/// The names, in order, of the entries marked as tenant folders.
pub open spec fn marked_names(entries: Seq<(Seq<char>, bool)>) -> Seq<Seq<char>>
    decreases entries.len(),
{
    if entries.len() == 0 {
        seq![]
    } else {
        marked_names(entries.drop_last()) + if entries.last().1 {
            seq![entries.last().0]
        } else {
            seq![]
        }
    }
}

/// The tenants of a `.accelmars/` folder whose entries are given as (name,
/// whether it is a folder holding a `MANIFEST.toml`): the marked names, sorted.
pub fn tenant_slugs(entries: &Vec<(String, bool)>) -> (r: Vec<String>)
    ensures
        crate::order::sorted_le(string_views(r@)),
        string_views(r@).to_multiset() == marked_names(entries@.map_values(|e: (String, bool)| (e.0@, e.1))).to_multiset(),
{
    let ghost ev = entries@.map_values(|e: (String, bool)| (e.0@, e.1));
    let mut names: Vec<String> = Vec::new();
    let mut i: usize = 0;
    assert(ev.take(0) =~= Seq::<(Seq<char>, bool)>::empty());
    while i < entries.len()
        invariant
            ev == entries@.map_values(|e: (String, bool)| (e.0@, e.1)),
            i <= entries@.len(),
            string_views(names@) == marked_names(ev.take(i as int)),
        decreases entries@.len() - i,
    {
        let ghost t = ev.take(i + 1);
        assert(t.drop_last() =~= ev.take(i as int));
        assert(t.last() == ev[i as int]);
        let ghost before = string_views(names@);
        if entries[i].1 {
            names.push(entries[i].0.clone());
            assert(string_views(names@) =~= before + seq![ev[i as int].0]);
        } else {
            assert(before + Seq::<Seq<char>>::empty() =~= before);
        }
        i = i + 1;
    }
    assert(ev.take(i as int) =~= ev);
    crate::order::sort_strings(&names)
}

/// The workspace configuration's schema version must be `1`.
pub fn check_schema_version(version: &str) -> (r: Result<(), WorkspaceError>)
    ensures
        version@ == "1"@ <==> r is Ok,
        r matches Err(e) ==> e matches WorkspaceError::UnsupportedSchemaVersion(v) && v@ == version@,
{
    proof {
        reveal_strlit("1");
    }
    if str_eq(version, "1") {
        Ok(())
    } else {
        Err(WorkspaceError::UnsupportedSchemaVersion(version.to_owned()))
    }
}

} // verus!

verus! {

/// The text value of the first entry keyed `k` of a TOML table (`None`
/// when there is none or its value is not text).
pub open spec fn table_str(es: Seq<(String, crate::toml_refs::TomlValue)>, k: Seq<char>) -> Option<Seq<char>>
    decreases es.len(),
{
    if es.len() == 0 {
        None
    } else if es[0].0@ == k {
        match es[0].1 {
            crate::toml_refs::TomlValue::Str(s) => Some(s@),
            _ => None,
        }
    } else {
        table_str(es.drop_first(), k)
    }
}

pub open spec fn opt_str_view(o: Option<String>) -> Option<Seq<char>> {
    match o {
        Some(s) => Some(s@),
        None => None,
    }
}

/// The default tenant the outer manifest's text declares: its top-level
/// `default_tenant` when the text parses as TOML and that value is text.
pub open spec fn default_tenant_spec(text: Seq<char>) -> Option<Seq<char>> {
    match crate::toml_refs::toml_parsed(text) {
        Some(crate::toml_refs::TomlValue::Table(es)) => table_str(es@, "default_tenant"@),
        _ => None,
    }
}

/// The `default_tenant` declared by the outer manifest whose text is `text`.
pub fn manifest_default_tenant(text: &str) -> (r: Option<String>)
    ensures
        opt_str_view(r) == default_tenant_spec(text@),
{
    proof {
        reveal_strlit("default_tenant");
    }
    match crate::toml_refs::toml_parse(text) {
        Some(crate::toml_refs::TomlValue::Table(es)) => {
            let ghost ev = es@;
            let mut i: usize = 0;
            assert(ev.skip(0) =~= ev);
            assert(default_tenant_spec(text@) == table_str(ev, "default_tenant"@));
            while i < es.len()
                invariant
                    ev == es@,
                    default_tenant_spec(text@) == table_str(ev, "default_tenant"@),
                    i <= ev.len(),
                    table_str(ev.skip(i as int), "default_tenant"@) == table_str(ev, "default_tenant"@),
                decreases ev.len() - i,
            {
                assert(ev.skip(i as int)[0] == ev[i as int]);
                assert(ev.skip(i as int).drop_first() =~= ev.skip(i + 1));
                if str_eq(es[i].0.as_str(), "default_tenant") {
                    return match &es[i].1 {
                        crate::toml_refs::TomlValue::Str(s) => Some(s.clone()),
                        _ => None,
                    };
                }
                i = i + 1;
            }
            None
        },
        _ => None,
    }
}

/// Choose the tenant as `resolve_slug` does, with the default tenant read
/// from the outer manifest's text (`None` when there is no readable manifest).
pub fn resolve_slug_with_manifest(
    flag: Option<&str>,
    env_slug: Option<&str>,
    slugs: &Vec<String>,
    dot_accelmars: &str,
    cwd: &str,
    manifest: Option<&str>,
) -> (r: Result<String, WorkspaceError>)
    ensures
        ({
            let want = slug_spec(
                match flag {
                    Some(f) => Some(f@),
                    None => None,
                },
                match env_slug {
                    Some(e) => Some(e@),
                    None => None,
                },
                string_views(slugs@),
                dot_accelmars@,
                cwd@,
                match manifest {
                    Some(t) => default_tenant_spec(t@),
                    None => None,
                },
            );
            match r {
                Ok(s) => want == SlugChoice::Chosen(s@),
                Err(WorkspaceError::TenantNotFound(s)) => want == SlugChoice::Missing(s@),
                Err(WorkspaceError::AmbiguousTenant(all)) => want == SlugChoice::Ambiguous && string_views(all@)
                    == string_views(slugs@),
                Err(_) => false,
            }
        }),
{
    let d = match manifest {
        Some(t) => manifest_default_tenant(t),
        None => None,
    };
    match &d {
        Some(s) => resolve_slug(flag, env_slug, slugs, dot_accelmars, cwd, Some(s.as_str())),
        None => resolve_slug(flag, env_slug, slugs, dot_accelmars, cwd, None),
    }
}

} // verus!
