//! Path mapping: where an entry discovered under a source root lands
//! under the destination root.
//!
//! The remainder of an entry's path after the *parent* of the source root
//! is appended to the destination root, so the source root's own final
//! component is kept as the first element under the destination.

use vstd::prelude::*;
use crate::paths::FsPath;
use crate::text::byte_views;

verus! {

/// An entry's path did not begin with the parent of its source root. This
/// cannot happen under a correct traversal, but it is checked, not assumed.
#[derive(Debug, Clone, PartialEq, Eq)]
pub struct PathMappingError;

/// The number of components of the parent of `root`: all of them but the
/// last. The empty path is its own parent.
pub open spec fn parent_len(root: Seq<Seq<u8>>) -> int {
    if root.len() > 0 {
        root.len() - 1
    } else {
        0
    }
}

/// An entry's path begins with the parent of its source root.
pub open spec fn rooted_under(root: Seq<Seq<u8>>, entry: Seq<Seq<u8>>) -> bool {
    parent_len(root) <= entry.len() && forall|i: int|
        0 <= i < parent_len(root) ==> entry[i] == root[i]
}

/// The destination of an entry: the destination root followed by the
/// entry's path with the source root's parent removed.
pub open spec fn mapped_dest(
    root: Seq<Seq<u8>>,
    entry: Seq<Seq<u8>>,
    dest_root: Seq<Seq<u8>>,
) -> Seq<Seq<u8>> {
    dest_root + entry.skip(parent_len(root))
}

/// Maps one discovered entry to its destination path, failing exactly
/// when the entry does not lie under the source root's parent.
pub fn map_entry(root: &FsPath, entry: &FsPath, dest_root: &FsPath) -> (r: Result<
    FsPath,
    PathMappingError,
>)
    ensures
        r is Ok <==> rooted_under(root@, entry@),
        r is Ok ==> r->Ok_0@ == mapped_dest(root@, entry@, dest_root@),
{
    let pl: usize = if root.parts.len() > 0 {
        root.parts.len() - 1
    } else {
        0
    };
    if entry.parts.len() < pl {
        return Err(PathMappingError);
    }
    // Check that the parent of the root is a prefix of the entry.
    let mut i: usize = 0;
    while i < pl
        invariant
            i <= pl <= entry.parts@.len(),
            pl == parent_len(root@),
            pl < root.parts@.len() || pl == 0,
            forall|j: int| 0 <= j < i ==> entry@[j] == root@[j],
        decreases pl - i,
    {
        let same = crate::text::bytes_eq(&entry.parts[i], &root.parts[i]);
        proof {
            assert(entry@[i as int] == entry.parts@[i as int]@);
            assert(root@[i as int] == root.parts@[i as int]@);
        }
        if !same {
            return Err(PathMappingError);
        }
        i += 1;
    }
    // Build the destination: the destination root, then the remainder.
    let mut dest = dest_root.copy();
    let mut k: usize = pl;
    while k < entry.parts.len()
        invariant
            pl <= k <= entry.parts@.len(),
            dest@ =~= dest_root@ + entry@.subrange(pl as int, k as int),
        decreases entry.parts@.len() - k,
    {
        let part = crate::text::copy_bytes(&entry.parts[k]);
        proof {
            assert(entry@[k as int] == entry.parts@[k as int]@);
        }
        dest.push_part(part);
        proof {
            assert(dest@ =~= dest_root@ + entry@.subrange(pl as int, k + 1 as int));
        }
        k += 1;
    }
    proof {
        assert(entry@.subrange(pl as int, entry@.len() as int) =~= entry@.skip(pl as int));
        assert(dest@ =~= mapped_dest(root@, entry@, dest_root@));
    }
    Ok(dest)
}

} // verus!
