//! Configuration values: a comma-separated value is split into tokens,
//! each trimmed of surrounding ASCII whitespace, kept in input order even
//! when empty; a value without a comma is a single token, and only the
//! empty value has none. The truth value of a flag is a case-insensitive
//! comparison with `true`.

use vstd::prelude::*;
use crate::text::{byte_views, trimmed, eq_ignore_case, trim_copy, copy_range};

verus! {

/// `s` split at every comma, in order; splitting never yields fewer than
/// one piece, and an empty value yields one empty piece.
pub open spec fn split_commas(s: Seq<u8>) -> Seq<Seq<u8>>
    decreases s.len(),
{
    if s.len() == 0 {
        seq![Seq::<u8>::empty()]
    } else {
        let rest = split_commas(s.drop_first());
        if s[0] == 44 {
            seq![Seq::<u8>::empty()] + rest
        } else {
            seq![seq![s[0]] + rest[0]] + rest.drop_first()
        }
    }
}

/// The tokens of a configuration value: each comma-separated piece,
/// trimmed, in input order; a piece that is empty after trimming is kept.
/// Only the empty value has no tokens at all.
pub open spec fn tokens_of(s: Seq<u8>) -> Seq<Seq<u8>> {
    if s.len() == 0 {
        Seq::<Seq<u8>>::empty()
    } else {
        split_commas(s).map_values(|t: Seq<u8>| trimmed(t))
    }
}

proof fn lemma_split_len(s: Seq<u8>)
    ensures
        split_commas(s).len() >= 1,
    decreases s.len(),
{
    if s.len() > 0 {
        lemma_split_len(s.drop_first());
    }
}

proof fn lemma_split_no_comma(s: Seq<u8>)
    requires
        forall|k: int| 0 <= k < s.len() ==> s[k] != 44,
    ensures
        split_commas(s) =~= seq![s],
    decreases s.len(),
{
    if s.len() == 0 {
        assert(s =~= Seq::<u8>::empty());
    } else {
        lemma_split_no_comma(s.drop_first());
        assert(seq![s[0]] + s.drop_first() =~= s);
    }
}

proof fn lemma_split_first_comma(s: Seq<u8>, j: int)
    requires
        0 <= j < s.len(),
        s[j] == 44,
        forall|k: int| 0 <= k < j ==> s[k] != 44,
    ensures
        split_commas(s) =~= seq![s.take(j)] + split_commas(s.skip(j + 1)),
    decreases j,
{
    if j == 0 {
        assert(s.take(0) =~= Seq::<u8>::empty());
        assert(s.drop_first() =~= s.skip(1));
    } else {
        let tail = s.drop_first();
        lemma_split_first_comma(tail, j - 1);
        lemma_split_len(tail.skip(j));
        assert(seq![s[0]] + tail.take(j - 1) =~= s.take(j));
        assert(tail.skip(j) =~= s.skip(j + 1));
        assert(split_commas(s) =~= seq![s.take(j)] + split_commas(s.skip(j + 1)));
    }
}

/// Splits a configuration value into its trimmed tokens, in input order.
pub fn split_values(s: &Vec<u8>) -> (r: Vec<Vec<u8>>)
    ensures
        byte_views(r@) == tokens_of(s@),
{
    if s.len() == 0 {
        proof {
            assert(byte_views(Seq::<Vec<u8>>::empty()) =~= Seq::<Seq<u8>>::empty());
        }
        return Vec::new();
    }
    // First pass: the raw comma-separated pieces.
    let mut raw: Vec<Vec<u8>> = Vec::new();
    let mut start: usize = 0;
    let mut i: usize = 0;
    proof {
        assert(s@.skip(0) =~= s@);
        assert(byte_views(raw@) + split_commas(s@.skip(0)) =~= split_commas(s@));
    }
    while i < s.len()
        invariant
            start <= i <= s@.len(),
            forall|k: int| start <= k < i ==> s@[k] != 44,
            byte_views(raw@) + split_commas(s@.skip(start as int)) =~= split_commas(s@),
        decreases s@.len() - i,
    {
        if s[i] == 44 {
            let seg = copy_range(s, start, i);
            proof {
                crate::text::lemma_byte_views_push(raw@, seg);
                lemma_split_first_comma(s@.skip(start as int), i - start);
                assert(s@.skip(start as int).take(i - start) =~= s@.subrange(
                    start as int,
                    i as int,
                ));
                assert(s@.skip(start as int).skip(i - start + 1) =~= s@.skip(i + 1));
                assert(byte_views(raw@).push(seg@) + split_commas(s@.skip(i + 1)) =~= split_commas(
                    s@,
                ));
            }
            raw.push(seg);
            start = i + 1;
        }
        i += 1;
    }
    let seg = copy_range(s, start, s.len());
    proof {
        crate::text::lemma_byte_views_push(raw@, seg);
        lemma_split_no_comma(s@.skip(start as int));
        assert(s@.subrange(start as int, s@.len() as int) =~= s@.skip(start as int));
        assert(byte_views(raw@).push(seg@) =~= split_commas(s@));
    }
    raw.push(seg);
    // Second pass: trim each piece.
    let mut out: Vec<Vec<u8>> = Vec::new();
    let mut k: usize = 0;
    while k < raw.len()
        invariant
            k <= raw@.len(),
            byte_views(raw@) == split_commas(s@),
            byte_views(out@) =~= byte_views(raw@).take(k as int).map_values(
                |t: Seq<u8>| trimmed(t),
            ),
        decreases raw@.len() - k,
    {
        let t = trim_copy(&raw[k]);
        proof {
            assert(byte_views(raw@)[k as int] == raw@[k as int]@);
            crate::text::lemma_byte_views_push(out@, t);
        }
        out.push(t);
        proof {
            assert(byte_views(out@) =~= byte_views(raw@).take(k + 1).map_values(
                |t: Seq<u8>| trimmed(t),
            ));
        }
        k += 1;
    }
    proof {
        assert(byte_views(raw@).take(raw@.len() as int) =~= byte_views(raw@));
        assert(byte_views(out@) =~= tokens_of(s@));
    }
    out
}

/// Whether a configuration flag value means `true`: a case-insensitive
/// comparison with the word `true`.
pub fn is_true_value(v: &Vec<u8>) -> (r: bool)
    ensures
        r == eq_ignore_case(v@, seq![116u8, 114u8, 117u8, 101u8]),
{
    let t: Vec<u8> = vec![116u8, 114u8, 117u8, 101u8];
    proof {
        assert(t@ =~= seq![116u8, 114u8, 117u8, 101u8]);
    }
    crate::text::bytes_eq_ignore_case(v, &t)
}

} // verus!
