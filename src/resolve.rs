//! Mapping a request target to a file path under the root directory.
use vstd::prelude::*;
use crate::segments::{
    is_current, is_parent, lemma_normalize_plain, normalize, normalize_span, normalized, split_segments,
    unsplit,
};
use crate::text::{before_first, lemma_before_first_at, push_span, push_str};

verus! {

/// The target's path relative to the root: the query (from the first `?` on)
/// is dropped, then a single leading `/`.
pub open spec fn relative_part(target: Seq<char>) -> Seq<char> {
    let p = before_first(target, '?');
    if p.len() > 0 && p[0] == '/' {
        p.drop_first()
    } else {
        p
    }
}

/// `rel` appended to `root`, with a `/` between them unless `root` is empty or
/// already ends with one.
pub open spec fn join(root: Seq<char>, rel: Seq<char>) -> Seq<char> {
    if root.len() == 0 || root.last() == '/' {
        root + rel
    } else {
        root.push('/') + rel
    }
}

/// The path a target names under `root`: the root joined with the target's
/// relative part, normalized; `None` when a `..` in it would climb above the
/// root.
pub open spec fn candidate(root: Seq<char>, target: Seq<char>) -> Option<Seq<char>> {
    match normalized(relative_part(target)) {
        Some(rel) => Some(join(root, rel)),
        None => None,
    }
}

/// The file served when a target names nothing that exists.
pub open spec fn fallback(root: Seq<char>) -> Seq<char> {
    join(root, "intercept"@)
}

/// The path served for `target`, given whether its candidate exists.
pub open spec fn resolved(root: Seq<char>, target: Seq<char>, candidate_exists: bool) -> Seq<char> {
    match candidate(root, target) {
        Some(c) if candidate_exists => c,
        _ => fallback(root),
    }
}

/// A query string does not change what a target resolves to: `path?query`
/// and `path` have the same candidate and are served from the same file.
pub proof fn lemma_query_ignored(root: Seq<char>, path: Seq<char>, query: Seq<char>)
    requires
        !path.contains('?'),
    ensures
        candidate(root, path + seq!['?'] + query) == candidate(root, path),
        forall|exists: bool|
            #[trigger] resolved(root, path + seq!['?'] + query, exists) == resolved(
                root,
                path,
                exists,
            ),
{
    let t = path + seq!['?'] + query;
    assert forall|k: int| 0 <= k < path.len() implies t[k] != '?' && path[k] != '?' by {
        if t[k] == '?' {
            assert(path[k] == t[k]);
        }
    }
    lemma_before_first_at(t, '?', path.len() as int);
    lemma_before_first_at(path, '?', path.len() as int);
    assert(t.subrange(0, path.len() as int) =~= path);
    assert(path.subrange(0, path.len() as int) =~= path);
}

/// The served path never leaves the root: it is `root` joined with ordinary
/// names (none of them empty, `.` or `..`) separated by `/`.
pub proof fn lemma_resolved_under_root(root: Seq<char>, target: Seq<char>, candidate_exists: bool)
    ensures
        exists|names: Seq<Seq<char>>|
            (forall|j: int|
                0 <= j < names.len() ==> !is_current(#[trigger] names[j]) && !is_parent(
                    names[j],
                )) && resolved(root, target, candidate_exists) == join(root, unsplit(names)),
{
    reveal_strlit("intercept");
    let segs = split_segments(relative_part(target));
    lemma_normalize_plain(segs);
    if candidate(root, target) is Some && candidate_exists {
        let names = normalize(segs)->Some_0;
        assert(resolved(root, target, candidate_exists) == join(root, unsplit(names)));
    } else {
        let names = seq!["intercept"@];
        assert(names.len() == 1);
        assert(unsplit(names) == "intercept"@);
        assert(forall|j: int| 0 <= j < names.len() ==> !is_current(#[trigger] names[j]) && !is_parent(names[j])) by {
            assert("intercept"@.len() == 9);
        }
        assert(resolved(root, target, candidate_exists) == join(root, unsplit(names)));
    }
}

/// Bounds in `target` of its relative part.
fn relative_bounds(target: &Vec<char>) -> (r: (usize, usize))
    ensures
        r.0 <= r.1 <= target@.len(),
        relative_part(target@) == target@.subrange(r.0 as int, r.1 as int),
{
    let mut end: usize = 0;
    while end < target.len() && target[end] != '?'
        invariant
            end <= target@.len(),
            forall|k: int| 0 <= k < end ==> target@[k] != '?',
        decreases target@.len() - end,
    {
        end = end + 1;
    }
    proof { lemma_before_first_at(target@, '?', end as int); }
    let start: usize = if end > 0 && target[0] == '/' { 1 } else { 0 };
    if start == 1 {
        assert(target@.subrange(0, end as int).drop_first() =~= target@.subrange(1, end as int));
    }
    (start, end)
}

/// Appends `join(root, ..)`'s prefix: `root`, then a `/` where one is needed.
fn push_root(out: &mut Vec<char>, root: &Vec<char>)
    requires
        old(out)@.len() == 0,
    ensures
        forall|rel: Seq<char>| #[trigger] join(root@, rel) == final(out)@ + rel,
{
    push_span(out, root, 0, root.len());
    assert(root@.subrange(0, root@.len() as int) =~= root@);
    if root.len() > 0 && root[root.len() - 1] != '/' {
        out.push('/');
    }
    assert(out@ =~= if root@.len() == 0 || root@.last() == '/' { root@ } else { root@.push('/') });
}

/// The path that `target` names under `root`, or `None` when a `..` in it
/// would climb above the root.
pub fn candidate_path(root: &Vec<char>, target: &Vec<char>) -> (r: Option<Vec<char>>)
    ensures
        r matches Some(p) ==> candidate(root@, target@) == Some(p@),
        r is None ==> candidate(root@, target@) is None,
{
    let (from, to) = relative_bounds(target);
    match normalize_span(target, from, to) {
        None => None,
        Some(rel) => {
            let mut p: Vec<char> = Vec::new();
            push_root(&mut p, root);
            push_span(&mut p, &rel, 0, rel.len());
            assert(rel@.subrange(0, rel@.len() as int) =~= rel@);
            Some(p)
        },
    }
}

/// The fallback file under `root`.
pub fn fallback_path(root: &Vec<char>) -> (r: Vec<char>)
    ensures
        r@ == fallback(root@),
{
    let mut p: Vec<char> = Vec::new();
    push_root(&mut p, root);
    push_str(&mut p, "intercept");
    p
}

/// The path to serve for `target` under `root`: its candidate when that exists,
/// else the fallback file. `candidate_exists` tells whether the candidate path
/// is present on disk; it is not consulted when there is no candidate.
pub fn sanitize(root: &Vec<char>, target: &Vec<char>, candidate_exists: bool) -> (r: Vec<char>)
    ensures
        r@ == resolved(root@, target@, candidate_exists),
{
    match candidate_path(root, target) {
        Some(p) if candidate_exists => p,
        _ => fallback_path(root),
    }
}

} // verus!
