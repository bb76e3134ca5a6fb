//! Byte-string helpers: the library stores every name and token as a
//! `Vec<u8>`, so comparisons, trimming and dot-stripping are defined here.

use vstd::prelude::*;

verus! {

/// The views of a sequence of byte vectors, element by element.
pub open spec fn byte_views(vs: Seq<Vec<u8>>) -> Seq<Seq<u8>> {
    Seq::new(vs.len(), |i: int| vs[i]@)
}

/// ASCII whitespace, as trimmed from configuration tokens.
pub open spec fn is_space(b: u8) -> bool {
    b == 32 || b == 9 || b == 10 || b == 13
}

/// ASCII lower-casing of a single byte.
pub open spec fn lower_byte(b: u8) -> u8 {
    if 65 <= b && b <= 90 {
        (b + 32) as u8
    } else {
        b
    }
}

/// ASCII case-insensitive equality of two byte strings.
pub open spec fn eq_ignore_case(a: Seq<u8>, b: Seq<u8>) -> bool {
    a.len() == b.len() && forall|i: int| 0 <= i < a.len() ==> lower_byte(a[i]) == lower_byte(b[i])
}

/// `s` with every leading ASCII space removed.
pub open spec fn trim_front(s: Seq<u8>) -> Seq<u8>
    decreases s.len(),
{
    if s.len() > 0 && is_space(s[0]) {
        trim_front(s.drop_first())
    } else {
        s
    }
}

/// `s` with every trailing ASCII space removed.
pub open spec fn trim_back(s: Seq<u8>) -> Seq<u8>
    decreases s.len(),
{
    if s.len() > 0 && is_space(s.last()) {
        trim_back(s.drop_last())
    } else {
        s
    }
}

/// `s` with leading and trailing ASCII spaces removed.
pub open spec fn trimmed(s: Seq<u8>) -> Seq<u8> {
    trim_back(trim_front(s))
}

/// `s` with every leading `.` removed, the normal form of an exclusion token.
pub open spec fn strip_dots(s: Seq<u8>) -> Seq<u8>
    decreases s.len(),
{
    if s.len() > 0 && s[0] == 46 {
        strip_dots(s.drop_first())
    } else {
        s
    }
}

/// Exact byte-string equality.
pub fn bytes_eq(a: &Vec<u8>, b: &Vec<u8>) -> (r: bool)
    ensures
        r <==> a@ == b@,
{
    if a.len() != b.len() {
        return false;
    }
    let mut i: usize = 0;
    while i < a.len()
        invariant
            i <= a@.len(),
            a@.len() == b@.len(),
            forall|j: int| 0 <= j < i ==> a@[j] == b@[j],
        decreases a@.len() - i,
    {
        if a[i] != b[i] {
            return false;
        }
        i += 1;
    }
    proof {
        assert(a@ =~= b@);
    }
    true
}

fn lower(b: u8) -> (r: u8)
    ensures
        r == lower_byte(b),
{
    if 65 <= b && b <= 90 {
        b + 32
    } else {
        b
    }
}

/// ASCII case-insensitive byte-string equality.
pub fn bytes_eq_ignore_case(a: &Vec<u8>, b: &Vec<u8>) -> (r: bool)
    ensures
        r == eq_ignore_case(a@, b@),
{
    if a.len() != b.len() {
        return false;
    }
    let mut i: usize = 0;
    while i < a.len()
        invariant
            i <= a@.len(),
            a@.len() == b@.len(),
            forall|j: int| 0 <= j < i ==> lower_byte(a@[j]) == lower_byte(b@[j]),
        decreases a@.len() - i,
    {
        if lower(a[i]) != lower(b[i]) {
            return false;
        }
        i += 1;
    }
    true
}

/// A fresh copy of the bytes of `v` in `[lo, hi)`.
pub(crate) fn copy_range(v: &Vec<u8>, lo: usize, hi: usize) -> (r: Vec<u8>)
    requires
        lo <= hi <= v@.len(),
    ensures
        r@ == v@.subrange(lo as int, hi as int),
{
    let mut r: Vec<u8> = Vec::new();
    let mut i: usize = lo;
    while i < hi
        invariant
            lo <= i <= hi <= v@.len(),
            r@ == v@.subrange(lo as int, i as int),
        decreases hi - i,
    {
        r.push(v[i]);
        proof {
            assert(r@ =~= v@.subrange(lo as int, i + 1 as int));
        }
        i += 1;
    }
    r
}

/// A fresh copy of a byte string.
pub fn copy_bytes(v: &Vec<u8>) -> (r: Vec<u8>)
    ensures
        r@ == v@,
{
    let r = copy_range(v, 0, v.len());
    proof {
        assert(v@.subrange(0, v@.len() as int) =~= v@);
    }
    r
}

/// Appending a byte vector appends its view.
pub proof fn lemma_byte_views_push(vs: Seq<Vec<u8>>, v: Vec<u8>)
    ensures
        byte_views(vs.push(v)) =~= byte_views(vs).push(v@),
{
    assert forall|k: int| 0 <= k < vs.len() + 1 implies byte_views(vs.push(v))[k] == byte_views(
        vs,
    ).push(v@)[k] by {
        assert(byte_views(vs.push(v))[k] == vs.push(v)[k]@);
        if k < vs.len() {
            assert(byte_views(vs)[k] == vs[k]@);
        }
    }
}

proof fn lemma_trim_front_skip(s: Seq<u8>, k: int)
    requires
        0 <= k <= s.len(),
        forall|j: int| 0 <= j < k ==> is_space(s[j]),
        k == s.len() || !is_space(s[k]),
    ensures
        trim_front(s) =~= s.skip(k),
    decreases k,
{
    if k == 0 {
        assert(trim_front(s) =~= s.skip(0));
    } else {
        assert(is_space(s[0]));
        lemma_trim_front_skip(s.drop_first(), k - 1);
        assert(s.drop_first().skip(k - 1) =~= s.skip(k));
    }
}

proof fn lemma_trim_back_take(s: Seq<u8>, h: int)
    requires
        0 <= h < s.len(),
        !is_space(s[h]),
        forall|j: int| h < j < s.len() ==> is_space(s[j]),
    ensures
        trim_back(s) =~= s.take(h + 1),
    decreases s.len(),
{
    if h == s.len() - 1 {
        assert(trim_back(s) =~= s.take(h + 1));
    } else {
        assert(is_space(s.last()));
        lemma_trim_back_take(s.drop_last(), h);
        assert(s.drop_last().take(h + 1) =~= s.take(h + 1));
    }
}

proof fn lemma_trim_back_all_space(s: Seq<u8>)
    requires
        forall|j: int| 0 <= j < s.len() ==> is_space(s[j]),
    ensures
        trim_back(s) =~= Seq::<u8>::empty(),
    decreases s.len(),
{
    if s.len() > 0 {
        lemma_trim_back_all_space(s.drop_last());
    }
}

/// A fresh copy of `v` with leading and trailing ASCII spaces removed.
pub fn trim_copy(v: &Vec<u8>) -> (r: Vec<u8>)
    ensures
        r@ == trimmed(v@),
{
    let mut lo: usize = 0;
    while lo < v.len() && is_space_byte(v[lo])
        invariant
            lo <= v@.len(),
            forall|j: int| 0 <= j < lo ==> is_space(v@[j]),
        decreases v@.len() - lo,
    {
        lo += 1;
    }
    proof {
        lemma_trim_front_skip(v@, lo as int);
    }
    if lo == v.len() {
        proof {
            assert(v@.skip(lo as int) =~= Seq::<u8>::empty());
            lemma_trim_back_all_space(trim_front(v@));
        }
        return Vec::new();
    }
    // v[lo] is the first non-space byte; search the last one from the end.
    let mut hi: usize = v.len() - 1;
    while hi > lo && is_space_byte(v[hi])
        invariant
            lo <= hi < v@.len(),
            !is_space(v@[lo as int]),
            forall|j: int| hi < j < v@.len() ==> is_space(v@[j]),
        decreases hi,
    {
        hi -= 1;
    }
    proof {
        let t = v@.skip(lo as int);
        assert(!is_space(t[hi - lo]));
        assert(forall|j: int| hi - lo < j < t.len() ==> is_space(t[j]));
        lemma_trim_back_take(t, hi - lo);
        assert(t.take(hi - lo + 1) =~= v@.subrange(lo as int, hi + 1 as int));
    }
    copy_range(v, lo, hi + 1)
}

fn is_space_byte(b: u8) -> (r: bool)
    ensures
        r == is_space(b),
{
    b == 32 || b == 9 || b == 10 || b == 13
}

proof fn lemma_strip_dots_skip(s: Seq<u8>, k: int)
    requires
        0 <= k <= s.len(),
        forall|j: int| 0 <= j < k ==> s[j] == 46,
        k == s.len() || s[k] != 46,
    ensures
        strip_dots(s) =~= s.skip(k),
    decreases k,
{
    if k == 0 {
        assert(strip_dots(s) =~= s.skip(0));
    } else {
        assert(s[0] == 46);
        lemma_strip_dots_skip(s.drop_first(), k - 1);
        assert(s.drop_first().skip(k - 1) =~= s.skip(k));
    }
}

/// A fresh copy of `v` with every leading `.` removed.
pub fn strip_dots_copy(v: &Vec<u8>) -> (r: Vec<u8>)
    ensures
        r@ == strip_dots(v@),
{
    let mut lo: usize = 0;
    while lo < v.len() && v[lo] == 46
        invariant
            lo <= v@.len(),
            forall|j: int| 0 <= j < lo ==> v@[j] == 46,
        decreases v@.len() - lo,
    {
        lo += 1;
    }
    proof {
        lemma_strip_dots_skip(v@, lo as int);
        assert(v@.skip(lo as int) =~= v@.subrange(lo as int, v@.len() as int));
    }
    copy_range(v, lo, v.len())
}

} // verus!
