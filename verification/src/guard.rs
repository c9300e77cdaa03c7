//! The path-validation guard.
//!
//! `validate_path` turns a caller-supplied path string into a path proven to
//! lie under one of a fixed set of allowed roots, or refuses it. The
//! filesystem questions the algorithm depends on — does the path exist, what
//! does it canonicalize to — are answered outside the crate and handed in as
//! a [`Resolution`], so the decision itself is verified for every possible
//! answer, and tests can drive it with a synthetic sandbox.
//!
//! Paths are treated as plain strings with `/` as the separator. A root
//! covers a candidate component-wise: the candidate must be the root itself
//! or continue it at a separator boundary, so a sibling directory whose name
//! merely starts with a root's name is rejected.

use vstd::prelude::*;
use crate::chartext::{chars_of, string_of, sub_vec, append_vec};
use crate::errs::FsError;

verus! {

/// What the filesystem said about the raw path, established by the caller
/// before validation:
/// - `Exists`: the path exists; `canonical` is its canonicalized form.
/// - `ParentExists`: the path does not exist but its parent does;
///   `canonical_parent` is the canonicalized parent, to which the final
///   component of the raw string is rejoined verbatim.
/// - `ParentMissing`: neither the path nor its parent exists; the raw
///   string itself is judged, a deliberately weaker guarantee for deeply
///   nonexistent paths.
/// - `NoParent`: the raw path has no parent component at all.
/// - `Failed`: canonicalization was attempted and failed; carries the
///   reported failure text.
pub enum Resolution {
    Exists { canonical: String },
    ParentExists { canonical_parent: String },
    ParentMissing,
    NoParent,
    Failed { message: String },
}

/// A path that passed validation: absolute, canonical as far as the
/// resolution allowed, and covered by an allowed root. Carries the original
/// request string only for diagnostics.
pub struct ValidatedPath {
    pub path: String,
    pub requested: String,
}

/// The judgement the guard must reach, as a function of the raw string, the
/// resolution and the allowed roots.
pub enum PathVerdict {
    Accept(Seq<char>),
    Traversal,
    Denied,
    Invalid,
}

/// The raw string holds a literal `..` sequence anywhere.
pub open spec fn contains_dotdot(s: Seq<char>) -> bool {
    exists|i: int| 0 <= i && i + 1 < s.len() && #[trigger] s[i] == '.' && s[i + 1] == '.'
}

/// `s` without its trailing separators.
pub open spec fn strip_trailing_slashes(s: Seq<char>) -> Seq<char>
    decreases s.len(),
{
    if s.len() > 0 && s.last() == '/' {
        strip_trailing_slashes(s.drop_last())
    } else {
        s
    }
}

/// Index of the last separator in `s`, or -1 if there is none.
pub open spec fn last_sep(s: Seq<char>) -> int
    decreases s.len(),
{
    if s.len() == 0 {
        -1
    } else if s.last() == '/' {
        s.len() - 1
    } else {
        last_sep(s.drop_last())
    }
}

/// The final component of a path string: what follows the last separator,
/// trailing separators ignored.
pub open spec fn file_name_of(s: Seq<char>) -> Seq<char> {
    let stripped = strip_trailing_slashes(s);
    stripped.skip(last_sep(stripped) + 1)
}

/// `parent` extended by one component `name`.
pub open spec fn join_path(parent: Seq<char>, name: Seq<char>) -> Seq<char> {
    if parent.len() > 0 && parent.last() == '/' {
        parent + name
    } else {
        parent + seq!['/'] + name
    }
}

/// Component-wise coverage: `path` equals `root` or continues it at a
/// separator boundary.
pub open spec fn root_covers(root: Seq<char>, path: Seq<char>) -> bool {
    &&& root.len() > 0
    &&& path.len() >= root.len()
    &&& path.take(root.len() as int) == root
    &&& (path.len() == root.len() || path[root.len() as int] == '/' || root.last() == '/')
}

/// Some member of the root set covers `path`.
pub open spec fn in_some_root(path: Seq<char>, roots: Seq<Seq<char>>) -> bool {
    exists|i: int| 0 <= i < roots.len() && root_covers(#[trigger] roots[i], path)
}

/// The character sequences of a sequence of strings.
pub open spec fn seq_views(rs: Seq<String>) -> Seq<Seq<char>> {
    rs.map_values(|r: String| r@)
}

/// The candidate path judged against the roots, when one can be formed.
pub open spec fn candidate_of(raw: Seq<char>, res: Resolution) -> Option<Seq<char>> {
    match res {
        Resolution::Exists { canonical } => Some(canonical@),
        Resolution::ParentExists { canonical_parent } => Some(
            join_path(canonical_parent@, file_name_of(raw)),
        ),
        Resolution::ParentMissing => Some(raw),
        Resolution::NoParent => None,
        Resolution::Failed { message } => None,
    }
}

/// The verdict of validation: traversal syntax is refused before anything
/// else; an unformable candidate is invalid; otherwise the candidate is
/// accepted exactly when an allowed root covers it.
pub open spec fn verdict(raw: Seq<char>, res: Resolution, roots: Seq<Seq<char>>) -> PathVerdict {
    if contains_dotdot(raw) {
        PathVerdict::Traversal
    } else {
        match candidate_of(raw, res) {
            Option::None => PathVerdict::Invalid,
            Option::Some(c) => if in_some_root(c, roots) {
                PathVerdict::Accept(c)
            } else {
                PathVerdict::Denied
            },
        }
    }
}

/// A raw string without traversal syntax whose candidate canonicalizes
/// under some allowed root is accepted, and the accepted path is that
/// candidate.
pub proof fn lemma_validate_accepts_under_root(
    raw: Seq<char>,
    res: Resolution,
    roots: Seq<Seq<char>>,
    c: Seq<char>,
)
    requires
        !contains_dotdot(raw),
        candidate_of(raw, res) == Option::Some(c),
        in_some_root(c, roots),
    ensures
        verdict(raw, res, roots) == PathVerdict::Accept(c),
{
}

/// A candidate canonicalizing outside every allowed root is denied,
/// whenever the raw string itself carried no traversal syntax.
pub proof fn lemma_validate_denies_outside_roots(
    raw: Seq<char>,
    res: Resolution,
    roots: Seq<Seq<char>>,
    c: Seq<char>,
)
    requires
        !contains_dotdot(raw),
        candidate_of(raw, res) == Option::Some(c),
        !in_some_root(c, roots),
    ensures
        verdict(raw, res, roots) == PathVerdict::Denied,
{
}

/// A raw string holding a literal `..` sequence is refused as traversal,
/// whatever it would canonicalize to.
pub proof fn lemma_validate_refuses_traversal(raw: Seq<char>, res: Resolution, roots: Seq<Seq<char>>)
    requires
        contains_dotdot(raw),
    ensures
        verdict(raw, res, roots) == PathVerdict::Traversal,
{
}

/// Whether the raw characters hold a literal `..` sequence.
pub fn has_dotdot(v: &Vec<char>) -> (r: bool)
    ensures
        r == contains_dotdot(v@),
{
    if v.len() < 2 {
        return false;
    }
    let mut i: usize = 0;
    while i < v.len() - 1
        invariant
            v@.len() >= 2,
            forall|j: int| 0 <= j && j + 1 < i + 1 && j + 1 < v@.len() ==> !(#[trigger] v@[j] == '.'
                && v@[j + 1] == '.'),
        decreases v@.len() - i,
    {
        if v[i] == '.' && v[i + 1] == '.' {
            proof {
                assert(contains_dotdot(v@));
            }
            return true;
        }
        i = i + 1;
    }
    false
}

/// The final component of the raw path, per [`file_name_of`].
pub(crate) fn file_name_vec(v: &Vec<char>) -> (r: Vec<char>)
    ensures
        r@ == file_name_of(v@),
{
    let mut end: usize = v.len();
    proof {
        assert(v@.take(v@.len() as int) =~= v@);
    }
    while end > 0 && v[end - 1] == '/'
        invariant
            end <= v@.len(),
            strip_trailing_slashes(v@) == strip_trailing_slashes(v@.take(end as int)),
        decreases end,
    {
        proof {
            let t = v@.take(end as int);
            assert(t.last() == '/');
            assert(t.drop_last() =~= v@.take(end - 1));
        }
        end = end - 1;
    }
    proof {
        let t = v@.take(end as int);
        assert(!(t.len() > 0 && t.last() == '/'));
        assert(strip_trailing_slashes(v@) == t);
    }
    let ghost stripped = strip_trailing_slashes(v@);
    proof {
        assert(stripped.take(end as int) =~= stripped);
    }
    let mut i: usize = end;
    while i > 0 && v[i - 1] != '/'
        invariant
            i <= end <= v@.len(),
            stripped == v@.take(end as int),
            last_sep(stripped) == last_sep(stripped.take(i as int)),
        decreases i,
    {
        proof {
            let t = stripped.take(i as int);
            assert(t.last() == v@[i - 1]);
            assert(t.drop_last() =~= stripped.take(i - 1));
        }
        i = i - 1;
    }
    proof {
        if i > 0 {
            let t = stripped.take(i as int);
            assert(t.last() == v@[i - 1]);
            assert(last_sep(stripped) == i - 1);
        } else {
            assert(stripped.take(0) =~= Seq::<char>::empty());
            assert(last_sep(stripped) == -1);
        }
    }
    let r = sub_vec(v, i, end);
    proof {
        assert(v@.subrange(i as int, end as int) =~= stripped.skip(last_sep(stripped) + 1));
    }
    r
}

/// `parent` extended by one component, per [`join_path`].
fn join_vec(parent: &Vec<char>, name: &Vec<char>) -> (r: Vec<char>)
    ensures
        r@ == join_path(parent@, name@),
{
    let mut r: Vec<char> = Vec::new();
    append_vec(&mut r, parent);
    if !(parent.len() > 0 && parent[parent.len() - 1] == '/') {
        r.push('/');
    }
    append_vec(&mut r, name);
    proof {
        if parent@.len() > 0 && parent@.last() == '/' {
            assert(r@ =~= parent@ + name@);
        } else {
            assert(r@ =~= parent@ + seq!['/'] + name@);
        }
    }
    r
}

/// Whether `root` covers `path` component-wise.
fn covers(root: &Vec<char>, path: &Vec<char>) -> (r: bool)
    ensures
        r == root_covers(root@, path@),
{
    let rl = root.len();
    if rl == 0 || path.len() < rl {
        return false;
    }
    let mut i: usize = 0;
    while i < rl
        invariant
            rl == root@.len(),
            path@.len() >= rl,
            i <= rl,
            forall|j: int| 0 <= j < i ==> path@[j] == root@[j],
        decreases rl - i,
    {
        if path[i] != root[i] {
            proof {
                assert(path@.take(rl as int)[i as int] != root@[i as int]);
            }
            return false;
        }
        i = i + 1;
    }
    proof {
        assert(path@.take(rl as int) =~= root@);
    }
    path.len() == rl || path[rl] == '/' || root[rl - 1] == '/'
}

/// Whether some allowed root covers `path`.
fn covered_by_some(path: &Vec<char>, roots: &Vec<String>) -> (r: bool)
    ensures
        r == in_some_root(path@, seq_views(roots@)),
{
    let mut i: usize = 0;
    while i < roots.len()
        invariant
            i <= roots@.len(),
            forall|j: int| 0 <= j < i ==> !root_covers(#[trigger] seq_views(roots@)[j], path@),
        decreases roots@.len() - i,
    {
        let rv = chars_of(roots[i].as_str());
        if covers(&rv, path) {
            proof {
                assert(seq_views(roots@)[i as int] == roots@[i as int]@);
            }
            return true;
        }
        proof {
            assert(seq_views(roots@)[i as int] == roots@[i as int]@);
        }
        i = i + 1;
    }
    false
}

/// Validates that a path stays within the allowed directories.
///
/// The raw string is refused outright if it holds a literal `..` sequence —
/// before any other consideration, whatever it would canonicalize to. The
/// candidate formed from the resolution is then accepted exactly when an
/// allowed root covers it.
pub fn validate_path(path_str: &str, resolution: &Resolution, roots: &Vec<String>) -> (r: Result<
    ValidatedPath,
    FsError,
>)
    ensures
        ({
            match verdict(path_str@, *resolution, seq_views(roots@)) {
                PathVerdict::Accept(c) => r matches Ok(v) && v.path@ == c && v.requested@
                    == path_str@,
                PathVerdict::Traversal => r matches Err(e) && e is PathTraversal,
                PathVerdict::Denied => r matches Err(e) && e is AccessDenied,
                PathVerdict::Invalid => r matches Err(e) && e is InvalidPath,
            }
        }),
        contains_dotdot(path_str@) ==> (r matches Err(e) && e is PathTraversal),
{
    let raw = chars_of(path_str);
    if has_dotdot(&raw) {
        return Err(FsError::PathTraversal);
    }
    let candidate: Vec<char> = match resolution {
        Resolution::Exists { canonical } => chars_of(canonical.as_str()),
        Resolution::ParentExists { canonical_parent } => {
            let parent = chars_of(canonical_parent.as_str());
            let name = file_name_vec(&raw);
            join_vec(&parent, &name)
        },
        Resolution::ParentMissing => raw,
        Resolution::NoParent => {
            return Err(FsError::InvalidPath);
        },
        Resolution::Failed { message } => {
            return Err(FsError::InvalidPath);
        },
    };
    if covered_by_some(&candidate, roots) {
        Ok(ValidatedPath { path: string_of(&candidate), requested: path_str.to_owned() })
    } else {
        Err(FsError::AccessDenied)
    }
}

/// Validates two paths for a source/destination operation. The first is
/// judged before the second is even inspected, so a failure on the first
/// reports its error whatever the second would have said.
pub fn validate_two_paths(
    path1: &str,
    resolution1: &Resolution,
    path2: &str,
    resolution2: &Resolution,
    roots: &Vec<String>,
) -> (r: Result<(ValidatedPath, ValidatedPath), FsError>)
    ensures
        ({
            match verdict(path1@, *resolution1, seq_views(roots@)) {
                PathVerdict::Accept(c1) => match verdict(path2@, *resolution2, seq_views(roots@)) {
                    PathVerdict::Accept(c2) => r matches Ok(p) && p.0.path@ == c1 && p.1.path@
                        == c2 && p.0.requested@ == path1@ && p.1.requested@ == path2@,
                    PathVerdict::Traversal => r matches Err(e) && e is PathTraversal,
                    PathVerdict::Denied => r matches Err(e) && e is AccessDenied,
                    PathVerdict::Invalid => r matches Err(e) && e is InvalidPath,
                },
                PathVerdict::Traversal => r matches Err(e) && e is PathTraversal,
                PathVerdict::Denied => r matches Err(e) && e is AccessDenied,
                PathVerdict::Invalid => r matches Err(e) && e is InvalidPath,
            }
        }),
{
    let p1 = validate_path(path1, resolution1, roots)?;
    let p2 = validate_path(path2, resolution2, roots)?;
    Ok((p1, p2))
}

} // verus!
