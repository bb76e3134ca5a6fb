//! The clean pass: which entries of the destination root are removed.
//!
//! Removing a non-protected directory removes its whole subtree in one
//! operation, and a protected entry is skipped together with everything
//! inside it, so the decision is taken over the top-level entries of the
//! destination root alone: every entry whose name does not match a
//! protected name (ASCII case-insensitively) is removed.

use vstd::prelude::*;
use crate::text::{byte_views, eq_ignore_case};

verus! {

/// One top-level entry of the directory being cleaned.
#[derive(Debug, Clone, PartialEq, Eq)]
pub struct CleanEntry {
    pub name: Vec<u8>,
    pub is_dir: bool,
}

/// The views of a sequence of entries: each a (name, is-directory) pair.
pub open spec fn entry_views(es: Seq<CleanEntry>) -> Seq<(Seq<u8>, bool)> {
    Seq::new(es.len(), |i: int| (es[i].name@, es[i].is_dir))
}

/// A name matches one of the protected names, ASCII case-insensitively.
pub open spec fn protected_spec(name: Seq<u8>, protected: Seq<Seq<u8>>) -> bool {
    exists|k: int| 0 <= k < protected.len() && eq_ignore_case(name, protected[k])
}

/// The removal decision for one entry, over its (name, is-directory) view.
pub open spec fn removal_pred(protected: Seq<Seq<u8>>) -> spec_fn((Seq<u8>, bool)) -> bool {
    |p: (Seq<u8>, bool)| !protected_spec(p.0, protected)
}

/// Whether `name` matches a protected name, ASCII case-insensitively.
pub fn is_protected(name: &Vec<u8>, protected: &Vec<Vec<u8>>) -> (r: bool)
    ensures
        r == protected_spec(name@, byte_views(protected@)),
{
    let mut k: usize = 0;
    while k < protected.len()
        invariant
            k <= protected@.len(),
            forall|j: int| 0 <= j < k ==> !eq_ignore_case(name@, byte_views(protected@)[j]),
        decreases protected@.len() - k,
    {
        let same = crate::text::bytes_eq_ignore_case(name, &protected[k]);
        proof {
            assert(byte_views(protected@)[k as int] == protected@[k as int]@);
        }
        if same {
            proof {
                assert(byte_views(protected@).len() == protected@.len());
                assert(eq_ignore_case(name@, byte_views(protected@)[k as int]));
            }
            return true;
        }
        k += 1;
    }
    false
}

/// The entries a clean pass removes: every top-level entry of the target
/// whose name is not protected, in the order given. The caller removes a
/// directory entry with its whole subtree and never descends into it
/// again; protected entries are left untouched, contents included.
pub fn plan_clean(entries: &Vec<CleanEntry>, protected: &Vec<Vec<u8>>) -> (r: Vec<CleanEntry>)
    ensures
        entry_views(r@) == entry_views(entries@).filter(removal_pred(byte_views(protected@))),
        forall|k: int| 0 <= k < r@.len() ==> !protected_spec(r@[k].name@, byte_views(protected@)),
{
    let ghost pred = removal_pred(byte_views(protected@));
    let ghost evs = entry_views(entries@);
    let mut r: Vec<CleanEntry> = Vec::new();
    let mut i: usize = 0;
    while i < entries.len()
        invariant
            i <= entries@.len(),
            pred == removal_pred(byte_views(protected@)),
            evs == entry_views(entries@),
            entry_views(r@) =~= evs.take(i as int).filter(pred),
        decreases entries@.len() - i,
    {
        let keep = is_protected(&entries[i].name, protected);
        proof {
            reveal(Seq::filter);
            let prefix = evs.take(i as int);
            let next = evs.take(i + 1);
            assert(next.drop_last() =~= prefix);
            assert(next.last() == (entries@[i as int].name@, entries@[i as int].is_dir));
            if pred(next.last()) {
                assert(next.filter(pred) =~= prefix.filter(pred).push(next.last()));
            } else {
                assert(next.filter(pred) =~= prefix.filter(pred));
            }
        }
        if !keep {
            let copied = CleanEntry {
                name: crate::text::copy_bytes(&entries[i].name),
                is_dir: entries[i].is_dir,
            };
            r.push(copied);
            proof {
                assert(entry_views(r@) =~= evs.take(i + 1).filter(pred));
            }
        } else {
            proof {
                assert(entry_views(r@) =~= evs.take(i + 1).filter(pred));
            }
        }
        i += 1;
    }
    proof {
        assert(evs.take(entries@.len() as int) =~= evs);
        assert(entry_views(r@) =~= evs.filter(pred));
        assert forall|k: int| 0 <= k < r@.len() implies !protected_spec(
            r@[k].name@,
            byte_views(protected@),
        ) by {
            assert(entry_views(r@)[k] == (r@[k].name@, r@[k].is_dir));
            evs.lemma_filter_pred(pred, k);
        }
    }
    r
}

} // verus!
