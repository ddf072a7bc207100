//! Relative paths as character sequences: joining and confinement.

use vstd::prelude::*;

verus! {

/// `base` and `rel` joined with one `/`; an empty side leaves the other as it is.
/// A `rel` that starts with `/` stays under `base` (it is not taken as absolute).
pub open spec fn join_spec(base: Seq<char>, rel: Seq<char>) -> Seq<char> {
    if base.len() == 0 {
        rel
    } else if rel.len() == 0 {
        base
    } else if base.last() == '/' {
        base + rel
    } else {
        base + seq!['/'] + rel
    }
}

/// `rel` holds, at position `i`, a component that is exactly `..`.
pub open spec fn parent_component_at(rel: Seq<char>, i: int) -> bool {
    &&& 0 <= i
    &&& i + 2 <= rel.len()
    &&& rel[i] == '.'
    &&& rel[i + 1] == '.'
    &&& (i == 0 || rel[i - 1] == '/')
    &&& (i + 2 == rel.len() || rel[i + 2] == '/')
}

/// A relative path that cannot leave the directory it is joined to: it does not
/// start at the root, and none of its components is `..`.
pub open spec fn is_confined(rel: Seq<char>) -> bool {
    &&& (rel.len() == 0 || rel[0] != '/')
    &&& forall|i: int| !#[trigger] parent_component_at(rel, i)
}

/// Joins `rel` under `base` as `join_spec` says.
pub fn join_path(base: &str, rel: &str) -> (r: String)
    ensures
        r@ == join_spec(base@, rel@),
{
    let n = base.unicode_len();
    let m = rel.unicode_len();
    if n == 0 {
        return String::from_str(rel);
    }
    let mut r = String::from_str(base);
    if m == 0 {
        return r;
    }
    if base.get_char(n - 1) != '/' {
        let sep = "/";
        proof {
            reveal_strlit("/");
        }
        r.append(sep);
    }
    r.append(rel);
    r
}

/// Whether `rel` is confined, as `is_confined` says.
pub fn check_confined(rel: &str) -> (r: bool)
    ensures
        r == is_confined(rel@),
{
    let n = rel.unicode_len();
    if n > 0 && rel.get_char(0) == '/' {
        return false;
    }
    let mut i: usize = 0;
    while i < n
        invariant
            n == rel@.len(),
            forall|j: int| 0 <= j < i ==> !#[trigger] parent_component_at(rel@, j),
        decreases n - i,
    {
        if i + 1 < n && rel.get_char(i) == '.' && rel.get_char(i + 1) == '.' && (i == 0 || rel.get_char(i - 1)
            == '/') && (i + 2 == n || rel.get_char(i + 2) == '/') {
            assert(parent_component_at(rel@, i as int));
            return false;
        }
        i = i + 1;
    }
    true
}

} // verus!
