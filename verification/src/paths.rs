//! Mapping of absolute filesystem paths to root-relative server paths.
//!
//! The runtime loader addresses a chunk by the path it has relative to the
//! configured output root. A path that does not lie under the root has no
//! server path at all: that is an expected outcome, not an error.

use vstd::prelude::*;
use vstd::string::*;

verus! {

/// An absolute path lies under the output root when the root is empty, or when
/// the path consists of the root, a `/` separator, and at least one further
/// character.
pub open spec fn path_in_root(root: Seq<char>, path: Seq<char>) -> bool {
    ||| root.len() == 0
    ||| (path.len() > root.len() && path.subrange(0, root.len() as int) == root && path[
        root.len() as int
    ] == '/')
}

/// The server path of `path` under `root`: what remains after the root and the
/// separator. Meaningful only when `path_in_root(root, path)` holds.
pub open spec fn root_relative(root: Seq<char>, path: Seq<char>) -> Seq<char> {
    if root.len() == 0 {
        path
    } else {
        path.subrange(root.len() as int + 1, path.len() as int)
    }
}

/// Maps the absolute path `path` to its server path relative to `root`:
/// `None` exactly when the path falls outside the root.
pub fn get_path_to(root: &str, path: &str) -> (r: Option<String>)
    ensures
        match r {
            Some(server_path) => path_in_root(root@, path@) && server_path@ == root_relative(
                root@,
                path@,
            ),
            None => !path_in_root(root@, path@),
        },
{
    let root_len = root.unicode_len();
    let path_len = path.unicode_len();
    if root_len == 0 {
        return Some(String::from_str(path));
    }
    if path_len <= root_len {
        return None;
    }
    let mut i: usize = 0;
    while i < root_len
        invariant
            i <= root_len,
            root_len == root@.len(),
            path_len == path@.len(),
            root_len < path_len,
            forall|j: int| 0 <= j < i ==> path@[j] == root@[j],
        decreases root_len - i,
    {
        if path.get_char(i) != root.get_char(i) {
            proof {
                assert(path@.subrange(0, root@.len() as int)[i as int] == path@[i as int]);
            }
            return None;
        }
        i += 1;
    }
    if path.get_char(root_len) != '/' {
        proof {
            assert(path@.subrange(0, root@.len() as int) =~= root@);
        }
        return None;
    }
    let rel = path.substring_char(root_len + 1, path_len);
    proof {
        assert(path@.subrange(0, root@.len() as int) =~= root@);
    }
    Some(String::from_str(rel))
}

/// Two distinct absolute paths under the root keep distinct server paths: the
/// mapping only strips a fixed prefix.
pub proof fn lemma_root_relative_injective(root: Seq<char>, p1: Seq<char>, p2: Seq<char>)
    requires
        path_in_root(root, p1),
        path_in_root(root, p2),
        root_relative(root, p1) == root_relative(root, p2),
    ensures
        p1 == p2,
{
    if root.len() > 0 {
        let rl = root.len() as int;
        assert(root_relative(root, p1).len() == p1.len() - rl - 1);
        assert(root_relative(root, p2).len() == p2.len() - rl - 1);
        assert(p1.len() == p2.len());
        assert forall|k: int| 0 <= k < p1.len() implies p1[k] == p2[k] by {
            if k < rl {
                assert(p1.subrange(0, rl)[k] == p1[k]);
                assert(p2.subrange(0, rl)[k] == p2[k]);
            } else if k > rl {
                assert(root_relative(root, p1)[k - rl - 1] == p1[k]);
                assert(root_relative(root, p2)[k - rl - 1] == p2[k]);
            }
        }
        assert(p1 =~= p2);
    }
}

} // verus!
