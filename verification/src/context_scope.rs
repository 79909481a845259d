//! Context-scoped rewrite domains.
//!
//! A move's rewrite scope is the deepest domain that contains its source: a
//! declared scope boundary, else a repository root, else the whole workspace.
//! Files outside the scope may still hold fully qualified paths into the moved
//! location ("inward" references); short suffix matches from outside do not count.

use vstd::prelude::*;
use vstd::string::*;
use crate::model::CanonicalPath;
use crate::paths::{join_take, lemma_prefix_inside, lemma_split_nonempty, split_slash};
use crate::resolver::{join_segs, split_segs, views};
use crate::transaction::{inside_spec, inside_src};

verus! {

broadcast use vstd::seq::group_seq_axioms;

/// A rewrite domain: one level of the scope hierarchy.
#[derive(Debug)]
pub enum RewriteDomain {
    /// The entire workspace (no repository root contains the source).
    Workspace,
    /// A repository root at depth 1 under the workspace root.
    Repo(CanonicalPath),
    /// A workspace-declared boundary.
    Defined(CanonicalPath),
}

/// The computed scope of one move.
#[derive(Debug)]
pub struct Scope {
    pub domain: RewriteDomain,
    /// Workspace-relative root of the scope; empty for the workspace scope.
    pub root: CanonicalPath,
}

/// The workspace topology a scope is chosen from.
pub struct ScopeResolver {
    /// Names of the depth-1 directories that are repositories.
    pub repo_roots: Vec<CanonicalPath>,
    /// Workspace-relative paths of the declared scope boundaries.
    pub scope_boundaries: Vec<CanonicalPath>,
}

impl ScopeResolver {
    pub fn new(repo_roots: Vec<CanonicalPath>, scope_boundaries: Vec<CanonicalPath>) -> (r: Self)
        ensures
            r.repo_roots@ == repo_roots@,
            r.scope_boundaries@ == scope_boundaries@,
    {
        ScopeResolver { repo_roots, scope_boundaries }
    }
}

/// The domain kind and root of a scope, as plain values.
pub enum DomainView {
    Workspace,
    Repo(Seq<char>),
    Defined(Seq<char>),
}

pub open spec fn domain_view(d: RewriteDomain) -> DomainView {
    match d {
        RewriteDomain::Workspace => DomainView::Workspace,
        RewriteDomain::Repo(p) => DomainView::Repo(p@),
        RewriteDomain::Defined(p) => DomainView::Defined(p@),
    }
}

/// The longest of `bs` that is `src` or a directory above it.
pub open spec fn deepest_boundary(bs: Seq<Seq<char>>, src: Seq<char>) -> Option<Seq<char>>
    decreases bs.len(),
{
    if bs.len() == 0 {
        None
    } else {
        let rest = deepest_boundary(bs.drop_last(), src);
        let b = bs.last();
        if inside_spec(src, b) && (rest is None || b.len() > rest.unwrap().len()) {
            Some(b)
        } else {
            rest
        }
    }
}

/// The deepest leading part (at most `depth` segments) of `parts` that is a repository root.
pub open spec fn deepest_repo(parts: Seq<Seq<char>>, roots: Seq<Seq<char>>, depth: int) -> Option<Seq<char>>
    decreases depth,
{
    if depth <= 0 {
        None
    } else if roots.contains(join_segs(parts.take(depth))) {
        Some(join_segs(parts.take(depth)))
    } else {
        deepest_repo(parts, roots, depth - 1)
    }
}

/// The scope of a move of `src`: the deepest declared boundary containing it,
/// else the deepest repository root containing it, else the workspace.
pub open spec fn scope_spec(roots: Seq<Seq<char>>, boundaries: Seq<Seq<char>>, src: Seq<char>) -> (DomainView, Seq<char>) {
    match deepest_boundary(boundaries, src) {
        Some(b) => (DomainView::Defined(b), b),
        None => {
            let parts = split_segs(src);
            match deepest_repo(parts, roots, parts.len() as int) {
                Some(c) => (DomainView::Repo(c), c),
                None => (DomainView::Workspace, seq![]),
            }
        },
    }
}

fn contains_path(v: &Vec<CanonicalPath>, p: &CanonicalPath) -> (r: bool)
    ensures
        r == views(v@).contains(p@),
{
    let mut i: usize = 0;
    while i < v.len()
        invariant
            0 <= i <= v@.len(),
            forall|j: int| 0 <= j < i ==> v@[j]@ != p@,
        decreases v@.len() - i,
    {
        if v[i] == *p {
            assert(views(v@)[i as int] == p@);
            return true;
        }
        i = i + 1;
    }
    assert forall|j: int| 0 <= j < views(v@).len() implies views(v@)[j] != p@ by {
        assert(views(v@)[j] == v@[j]@);
    }
    false
}

/// The deepest-domain scope for a move whose source is `src`.
pub fn scope_for_move(resolver: &ScopeResolver, src: &CanonicalPath) -> (r: Scope)
    ensures
        (domain_view(r.domain), r.root@) == scope_spec(
            views(resolver.repo_roots@),
            views(resolver.scope_boundaries@),
            src@,
        ),
{
    let bs = &resolver.scope_boundaries;
    let ghost bv = views(bs@);
    let mut best: Option<usize> = None;
    let mut best_len: usize = 0;
    let mut i: usize = 0;
    while i < bs.len()
        invariant
            bv == views(bs@),
            0 <= i <= bs@.len(),
            deepest_boundary(bv.take(i as int), src@) == match best {
                Some(k) => Some(bv[k as int]),
                None => None::<Seq<char>>,
            },
            match best {
                Some(k) => k < i && best_len == bv[k as int].len(),
                None => true,
            },
        decreases bs@.len() - i,
    {
        assert(bv.take(i + 1).drop_last() =~= bv.take(i as int));
        assert(bv.take(i + 1).last() == bs@[i as int]@);
        let b = &bs[i];
        if inside_src(src, b) {
            let bl = b.as_str().unicode_len();
            match best {
                None => {
                    best = Some(i);
                    best_len = bl;
                },
                Some(_) => {
                    if bl > best_len {
                        best = Some(i);
                        best_len = bl;
                    }
                },
            }
        }
        i = i + 1;
    }
    assert(bv.take(i as int) =~= bv);
    match best {
        Some(k) => {
            let b = bs[k].clone();
            return Scope { domain: RewriteDomain::Defined(b.clone()), root: b };
        },
        None => {},
    }
    let parts = split_slash(src.as_str());
    let ghost pv = views(parts@);
    let roots = &resolver.repo_roots;
    let mut depth: usize = parts.len();
    while depth >= 1
        invariant
            pv == views(parts@),
            pv == split_segs(src@),
            deepest_boundary(views(resolver.scope_boundaries@), src@) is None,
            roots == &resolver.repo_roots,
            depth <= parts@.len(),
            deepest_repo(pv, views(roots@), depth as int) == deepest_repo(pv, views(roots@), pv.len() as int),
        decreases depth,
    {
        let candidate = join_take(&parts, depth);
        if contains_path(roots, &candidate) {
            return Scope { domain: RewriteDomain::Repo(candidate.clone()), root: candidate };
        }
        depth = depth - 1;
    }
    Scope { domain: RewriteDomain::Workspace, root: String::new() }
}

/// Whether `file` lies in scope `(domain, root)`: the workspace holds every file,
/// another scope the files at or under its root.
pub open spec fn in_scope_spec(file: Seq<char>, domain: DomainView, root: Seq<char>) -> bool {
    match domain {
        DomainView::Workspace => true,
        _ => inside_spec(file, root),
    }
}

/// Whether `file_canonical` lies within `scope`.
pub fn is_in_scope(file_canonical: &CanonicalPath, scope: &Scope) -> (r: bool)
    ensures
        r == in_scope_spec(file_canonical@, domain_view(scope.domain), scope.root@),
{
    match scope.domain {
        RewriteDomain::Workspace => true,
        _ => inside_src(file_canonical, &scope.root),
    }
}

/// `s` without its trailing `/` characters.
pub open spec fn trim_slashes(s: Seq<char>) -> Seq<char>
    decreases s.len(),
{
    if s.len() > 0 && s.last() == '/' {
        trim_slashes(s.drop_last())
    } else {
        s
    }
}

/// Whether `target_raw` (trailing `/`s ignored) is `src` or a path under it:
/// a fully qualified reference into the moved location. Bare suffixes of
/// `src` do not count.
pub fn is_inward_ref(target_raw: &str, src: &CanonicalPath) -> (r: bool)
    ensures
        r == inside_spec(trim_slashes(target_raw@), src@),
{
    let mut n = target_raw.unicode_len();
    assert(target_raw@.take(n as int) =~= target_raw@);
    while n > 0 && target_raw.get_char(n - 1) == '/'
        invariant
            n <= target_raw@.len(),
            trim_slashes(target_raw@.take(n as int)) == trim_slashes(target_raw@),
        decreases n,
    {
        assert(target_raw@.take(n as int).drop_last() =~= target_raw@.take(n - 1));
        n = n - 1;
    }
    let normalized = target_raw.substring_char(0, n).to_owned();
    assert(normalized@ =~= target_raw@.take(n as int));
    inside_src(&normalized, src)
}

/// The source of a move always lies in its own scope.
pub proof fn source_in_own_scope(roots: Seq<Seq<char>>, boundaries: Seq<Seq<char>>, src: Seq<char>)
    ensures
        in_scope_spec(src, scope_spec(roots, boundaries, src).0, scope_spec(roots, boundaries, src).1),
{
    lemma_deepest_boundary_inside(boundaries, src);
    let parts = split_segs(src);
    lemma_split_nonempty(src);
    lemma_deepest_repo_inside(parts, roots, parts.len() as int, src);
}

proof fn lemma_deepest_boundary_inside(bs: Seq<Seq<char>>, src: Seq<char>)
    ensures
        deepest_boundary(bs, src) matches Some(b) ==> inside_spec(src, b),
    decreases bs.len(),
{
    if bs.len() > 0 {
        lemma_deepest_boundary_inside(bs.drop_last(), src);
    }
}

proof fn lemma_deepest_repo_inside(parts: Seq<Seq<char>>, roots: Seq<Seq<char>>, depth: int, src: Seq<char>)
    requires
        parts == split_segs(src),
        depth <= parts.len(),
    ensures
        deepest_repo(parts, roots, depth) matches Some(c) ==> inside_spec(src, c),
    decreases depth,
{
    if depth > 0 {
        if roots.contains(join_segs(parts.take(depth))) {
            lemma_prefix_inside(src, depth);
        } else {
            lemma_deepest_repo_inside(parts, roots, depth - 1, src);
        }
    }
}

} // verus!
