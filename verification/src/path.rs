//! Path filter: decides whether one canonical path lies inside the subtree
//! rooted at another. Paths are handled as byte sequences; the test is purely
//! syntactic (a component-prefix check) and never touches the filesystem.

use vstd::prelude::*;

verus! {

/// Bytes that separate path components: `/` (47) and `\` (92), so that
/// canonical paths from either separator convention compare the same way.
pub open spec fn is_separator(b: u8) -> bool {
    b == 47 || b == 92
}

/// `path` lies under `root` when it is the same path, or when `root` is a
/// strict prefix of `path` that ends on a component boundary: the next byte
/// of `path` is a separator, or `root` itself ends with one (a bare
/// filesystem root such as `/`).
pub open spec fn is_under(root: Seq<u8>, path: Seq<u8>) -> bool {
    ||| path == root
    ||| (root.len() < path.len() && path.subrange(0, root.len() as int) == root && (
        is_separator(path[root.len() as int])
        || (root.len() > 0 && is_separator(root[root.len() - 1]))
    ))
}

/// Executable component-boundary test matching `is_separator`.
pub fn separator(b: u8) -> (r: bool)
    ensures
        r == is_separator(b),
{
    b == 47 || b == 92
}

/// Executable subtree test matching `is_under`.
pub fn path_is_under(root: &Vec<u8>, path: &Vec<u8>) -> (r: bool)
    ensures
        r == is_under(root@, path@),
{
    let rlen = root.len();
    if path.len() < rlen {
        return false;
    }
    let mut i: usize = 0;
    while i < rlen
        invariant
            i <= rlen,
            rlen == root@.len(),
            rlen <= path@.len(),
            forall|j: int| 0 <= j < i ==> path@[j] == root@[j],
        decreases rlen - i,
    {
        if path[i] != root[i] {
            proof {
                assert(path@.subrange(0, rlen as int)[i as int] == path@[i as int]);
                assert(path@.subrange(0, rlen as int) != root@);
                if path@ == root@ {
                    assert(path@[i as int] == root@[i as int]);
                }
            }
            return false;
        }
        i += 1;
    }
    proof {
        assert(path@.subrange(0, rlen as int) =~= root@);
    }
    if path.len() == rlen {
        proof {
            assert(path@ =~= root@);
        }
        return true;
    }
    if separator(path[rlen]) {
        return true;
    }
    if rlen > 0 && separator(root[rlen - 1]) {
        return true;
    }
    false
}

} // verus!
