//! Extension matching: what counts as a file's extension and when an
//! extension is on the exclusion list.
//!
//! A file is copied exactly when it has no extension or its extension is
//! not on the normalized exclusion list; exclusion tokens are normalized
//! by removing leading dots, and matching is an exact, case-sensitive
//! comparison of the normalized strings.

use vstd::prelude::*;
use crate::text::{byte_views, strip_dots, strip_dots_copy, bytes_eq, copy_range};

verus! {

/// The index of the last `.` in `s`, if any.
pub open spec fn last_dot(s: Seq<u8>) -> Option<int>
    decreases s.len(),
{
    if s.len() == 0 {
        None
    } else if s.last() == 46 {
        Some(s.len() - 1)
    } else {
        last_dot(s.drop_last())
    }
}

/// The extension of a file name: the part after the last `.`, absent when
/// the name has no dot or only a leading one (a dotfile has no extension).
pub open spec fn extension_of(name: Seq<u8>) -> Option<Seq<u8>> {
    match last_dot(name) {
        Some(j) => if j > 0 {
            Some(name.skip(j + 1))
        } else {
            None
        },
        None => None,
    }
}

/// The view of an optional byte string.
pub open spec fn opt_view(o: Option<Vec<u8>>) -> Option<Seq<u8>> {
    match o {
        Some(v) => Some(v@),
        None => None,
    }
}

/// An extension is excluded exactly when its dot-stripped form equals the
/// dot-stripped form of some configured token; an absent extension never is.
pub open spec fn excluded_spec(ext: Option<Seq<u8>>, excludes: Seq<Seq<u8>>) -> bool {
    match ext {
        None => false,
        Some(e) => exists|k: int|
            0 <= k < excludes.len() && strip_dots(excludes[k]) == strip_dots(e),
    }
}

proof fn lemma_last_dot_at(s: Seq<u8>, j: int)
    requires
        0 <= j < s.len(),
        s[j] == 46,
        forall|k: int| j < k < s.len() ==> s[k] != 46,
    ensures
        last_dot(s) == Some(j),
    decreases s.len(),
{
    if j == s.len() - 1 {
    } else {
        assert(s.last() != 46);
        lemma_last_dot_at(s.drop_last(), j);
    }
}

proof fn lemma_last_dot_none(s: Seq<u8>)
    requires
        forall|k: int| 0 <= k < s.len() ==> s[k] != 46,
    ensures
        last_dot(s) is None,
    decreases s.len(),
{
    if s.len() > 0 {
        lemma_last_dot_none(s.drop_last());
    }
}

/// The extension of the file name `name`, as a fresh byte string.
pub fn extension(name: &Vec<u8>) -> (r: Option<Vec<u8>>)
    ensures
        opt_view(r) == extension_of(name@),
{
    let mut i: usize = name.len();
    while i > 0
        invariant
            i <= name@.len(),
            forall|k: int| i <= k < name@.len() ==> name@[k] != 46,
        decreases i,
    {
        if name[i - 1] == 46 {
            let j = i - 1;
            proof {
                lemma_last_dot_at(name@, j as int);
            }
            if j > 0 {
                let e = copy_range(name, j + 1, name.len());
                proof {
                    assert(name@.subrange(j + 1 as int, name@.len() as int) =~= name@.skip(
                        j + 1 as int,
                    ));
                }
                return Some(e);
            } else {
                return None;
            }
        }
        i -= 1;
    }
    proof {
        lemma_last_dot_none(name@);
    }
    None
}

/// Whether a file with extension `ext` is excluded by the configured
/// exclusion tokens.
pub fn is_excluded(ext: &Option<Vec<u8>>, excludes: &Vec<Vec<u8>>) -> (r: bool)
    ensures
        r == excluded_spec(opt_view(*ext), byte_views(excludes@)),
{
    match ext {
        None => false,
        Some(e) => {
            let stripped = strip_dots_copy(e);
            let mut k: usize = 0;
            while k < excludes.len()
                invariant
                    k <= excludes@.len(),
                    opt_view(*ext) == Some(e@),
                    stripped@ == strip_dots(e@),
                    forall|j: int|
                        0 <= j < k ==> strip_dots(byte_views(excludes@)[j]) != strip_dots(e@),
                decreases excludes@.len() - k,
            {
                let tok = strip_dots_copy(&excludes[k]);
                let same = bytes_eq(&tok, &stripped);
                proof {
                    assert(byte_views(excludes@)[k as int] == excludes@[k as int]@);
                }
                if same {
                    proof {
                        assert(byte_views(excludes@).len() == excludes@.len());
                        assert(strip_dots(byte_views(excludes@)[k as int]) == strip_dots(e@));
                    }
                    return true;
                }
                k += 1;
            }
            false
        },
    }
}

} // verus!
