//! Filesystem paths as the library sees them: an ordered list of
//! components, each a plain byte string. The surrounding program converts
//! real paths to and from this form; every decision the library makes is
//! about these component lists alone.

use vstd::prelude::*;
use crate::text::byte_views;

verus! {

/// A path, as a sequence of components. An absolute path carries its root
/// as its first component; the library never interprets the components.
#[derive(Debug, Clone, PartialEq, Eq)]
pub struct FsPath {
    pub parts: Vec<Vec<u8>>,
}

impl View for FsPath {
    type V = Seq<Seq<u8>>;

    open spec fn view(&self) -> Seq<Seq<u8>> {
        byte_views(self.parts@)
    }
}

/// `p` is a (not necessarily proper) prefix of `s`.
pub open spec fn is_prefix_of(p: Seq<Seq<u8>>, s: Seq<Seq<u8>>) -> bool {
    p.len() <= s.len() && forall|i: int| 0 <= i < p.len() ==> s[i] == p[i]
}

impl FsPath {
    /// The empty path.
    pub fn empty() -> (r: FsPath)
        ensures
            r@ =~= Seq::<Seq<u8>>::empty(),
    {
        FsPath { parts: Vec::new() }
    }

    /// Append one component.
    pub fn push_part(&mut self, name: Vec<u8>)
        ensures
            final(self)@ =~= old(self)@.push(name@),
    {
        self.parts.push(name);
    }

    /// A fresh copy of this path.
    pub fn copy(&self) -> (r: FsPath)
        ensures
            r@ =~= self@,
    {
        let mut parts: Vec<Vec<u8>> = Vec::new();
        let mut i: usize = 0;
        while i < self.parts.len()
            invariant
                i <= self.parts@.len(),
                parts@.len() == i,
                forall|k: int| 0 <= k < i ==> parts@[k]@ == self.parts@[k]@,
            decreases self.parts@.len() - i,
        {
            parts.push(crate::text::copy_bytes(&self.parts[i]));
            i += 1;
        }
        proof {
            assert forall|k: int| 0 <= k < parts@.len() implies byte_views(parts@)[k] == byte_views(
                self.parts@,
            )[k] by {
                assert(byte_views(parts@)[k] == parts@[k]@);
                assert(byte_views(self.parts@)[k] == self.parts@[k]@);
            }
            assert(byte_views(parts@) =~= byte_views(self.parts@));
        }
        FsPath { parts }
    }

    /// The parent path: this path without its final component. The empty
    /// path is its own parent.
    pub fn parent(&self) -> (r: FsPath)
        ensures
            self@.len() > 0 ==> r@ =~= self@.drop_last(),
            self@.len() == 0 ==> r@ =~= self@,
    {
        let mut r = self.copy();
        if r.parts.len() > 0 {
            r.parts.pop();
            proof {
                assert(byte_views(r.parts@) =~= self@.drop_last());
            }
        }
        r
    }

    /// Whether `prefix` is a component-wise prefix of this path.
    pub fn starts_with(&self, prefix: &FsPath) -> (r: bool)
        ensures
            r == is_prefix_of(prefix@, self@),
    {
        if prefix.parts.len() > self.parts.len() {
            return false;
        }
        let mut i: usize = 0;
        while i < prefix.parts.len()
            invariant
                i <= prefix.parts@.len() <= self.parts@.len(),
                forall|j: int| 0 <= j < i ==> self@[j] == prefix@[j],
            decreases prefix.parts@.len() - i,
        {
            let same = crate::text::bytes_eq(&self.parts[i], &prefix.parts[i]);
            proof {
                assert(self@[i as int] == self.parts@[i as int]@);
                assert(prefix@[i as int] == prefix.parts@[i as int]@);
            }
            if !same {
                return false;
            }
            i += 1;
        }
        true
    }
}

} // verus!
