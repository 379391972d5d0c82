//! Locating the project root: the nearest ancestor of a path that holds a
//! project marker.
use crate::paths::{ascend, last_index_of, parent, parent_of};
use vstd::prelude::*;

verus! {

/// The names whose presence in a directory marks it as a project root.
pub fn root_markers() -> (r: Vec<String>)
    ensures
        r@.len() == 3,
        r@[0]@ == seq!['s', 'e', 't', 'u', 'p', '.', 'p', 'y'],
        r@[1]@ == seq!['p', 'y', 'p', 'r', 'o', 'j', 'e', 'c', 't', '.', 't', 'o', 'm', 'l'],
        r@[2]@ == seq!['.', 'g', 'i', 't'],
{
    let a = "setup.py";
    let b = "pyproject.toml";
    let c = ".git";
    proof {
        reveal_strlit("setup.py");
        reveal_strlit("pyproject.toml");
        reveal_strlit(".git");
    }
    let out = vec![String::from_str(a), String::from_str(b), String::from_str(c)];
    assert(out@[0]@ =~= seq!['s', 'e', 't', 'u', 'p', '.', 'p', 'y']);
    assert(out@[1]@ =~= seq!['p', 'y', 'p', 'r', 'o', 'j', 'e', 'c', 't', '.', 't', 'o', 'm', 'l']);
    assert(out@[2]@ =~= seq!['.', 'g', 'i', 't']);
    out
}

proof fn lemma_last_index_bounds(s: Seq<char>, c: char)
    ensures
        -1 <= last_index_of(s, c) < s.len(),
    decreases s.len(),
{
    if s.len() > 0 {
        lemma_last_index_bounds(s.drop_last(), c);
    }
}

proof fn lemma_parent_shorter(p: Seq<char>)
    requires
        parent_of(p) is Some,
    ensures
        parent_of(p)->0.len() < p.len(),
{
    lemma_last_index_bounds(p, '/');
}

/// `start` and each of its ancestors, nearest first, up to the last one that
/// has no parent.
pub fn ancestors(start: &String) -> (r: Vec<String>)
    ensures
        r@.len() >= 1,
        forall|k: int| 0 <= k < r@.len() ==> ascend(start@, k as nat) == Some(r@[k]@),
        ascend(start@, r@.len() as nat) is None,
{
    let mut out: Vec<String> = vec![start.clone()];
    let mut cur = start.clone();
    loop
        invariant
            out@.len() >= 1,
            cur@ == out@.last()@,
            forall|k: int| 0 <= k < out@.len() ==> ascend(start@, k as nat) == Some(out@[k]@),
        decreases cur@.len(),
    {
        match parent(cur.as_str()) {
            Some(q) => {
                proof {
                    lemma_parent_shorter(cur@);
                    assert(ascend(start@, out@.len() as nat) == parent_of(cur@));
                }
                out.push(q.clone());
                cur = q;
            },
            None => {
                assert(ascend(start@, out@.len() as nat) == parent_of(cur@));
                return out;
            },
        }
    }
}

/// The first of `dirs` whose flag in `marked` is set: given the ancestors of a
/// path, nearest first, and for each whether it holds a marker, this is the
/// project root. `None` when no directory is marked.
pub fn find_project_root(dirs: &Vec<String>, marked: &Vec<bool>) -> (r: Option<String>)
    requires
        dirs@.len() == marked@.len(),
    ensures
        r is None <==> forall|k: int| 0 <= k < marked@.len() ==> !marked@[k],
        r matches Some(d) ==> exists|k: int|
            0 <= k < dirs@.len() && marked@[k] && d@ == dirs@[k]@ && forall|j: int|
                0 <= j < k ==> !marked@[j],
{
    let mut i: usize = 0;
    while i < dirs.len()
        invariant
            i <= dirs@.len(),
            dirs@.len() == marked@.len(),
            forall|j: int| 0 <= j < i ==> !marked@[j],
        decreases dirs@.len() - i,
    {
        if marked[i] {
            return Some(dirs[i].clone());
        }
        i = i + 1;
    }
    None
}

} // verus!
