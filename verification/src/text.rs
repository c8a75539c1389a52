//! Plain byte-string utilities: equality, copying, substring containment,
//! and the base filename of a slash-separated path.

use vstd::prelude::*;

verus! {

/// The path separator byte `'/'`.
pub const SLASH: u8 = 47;

/// The views of a list of byte strings, as a sequence of byte sequences.
pub open spec fn seq_views(l: Seq<Vec<u8>>) -> Seq<Seq<u8>> {
    Seq::new(l.len(), |i: int| l[i]@)
}

/// The view of an optional byte string.
pub open spec fn opt_view(o: Option<Vec<u8>>) -> Option<Seq<u8>> {
    match o {
        Some(v) => Some(v@),
        None => None,
    }
}

/// Whether `m` occurs in `h` as a contiguous subrange.
pub open spec fn spec_contains(h: Seq<u8>, m: Seq<u8>) -> bool {
    exists|i: int|
        0 <= i && i + m.len() <= h.len() && #[trigger] h.subrange(i, i + m.len() as int) == m
}

/// Byte-for-byte equality of two byte strings.
pub fn bytes_eq(a: &Vec<u8>, b: &Vec<u8>) -> (r: bool)
    ensures
        r == (a@ == b@),
{
    if a.len() != b.len() {
        return false;
    }
    let n = a.len();
    let mut i: usize = 0;
    while i < n
        invariant
            n == a@.len(),
            n == b@.len(),
            i <= n,
            forall|k: int| 0 <= k < i ==> a@[k] == b@[k],
        decreases n - i,
    {
        if a[i] != b[i] {
            return false;
        }
        i = i + 1;
    }
    proof {
        assert(a@ =~= b@);
    }
    true
}

/// A fresh byte string with the same contents.
pub fn copy_bytes(a: &Vec<u8>) -> (r: Vec<u8>)
    ensures
        r@ == a@,
{
    let n = a.len();
    let mut r: Vec<u8> = Vec::new();
    let mut i: usize = 0;
    while i < n
        invariant
            n == a@.len(),
            i <= n,
            r@ == a@.subrange(0, i as int),
        decreases n - i,
    {
        r.push(a[i]);
        proof {
            assert(a@.subrange(0, i as int).push(a@[i as int]) =~= a@.subrange(0, i + 1));
        }
        i = i + 1;
    }
    proof {
        assert(a@.subrange(0, n as int) =~= a@);
    }
    r
}

/// Whether `m` occurs in `h` as a contiguous substring of bytes.
pub fn contains_sub(h: &Vec<u8>, m: &Vec<u8>) -> (r: bool)
    ensures
        r == spec_contains(h@, m@),
{
    if m.len() > h.len() {
        return false;
    }
    if m.len() == 0 {
        proof {
            assert(h@.subrange(0, 0 + m@.len() as int) =~= m@);
        }
        return true;
    }
    let bound = h.len() - m.len();
    let mut i: usize = 0;
    while i <= bound
        invariant
            bound == h@.len() - m@.len(),
            1 <= m@.len() <= h@.len(),
            h@.len() <= usize::MAX,
            i <= bound + 1,
            forall|ii: int| 0 <= ii < i ==> #[trigger] h@.subrange(ii, ii + m@.len() as int) != m@,
        decreases bound - i + 1,
    {
        let mlen = m.len();
        let mut j: usize = 0;
        let mut matched: bool = true;
        while j < mlen
            invariant
                mlen == m@.len(),
                bound == h@.len() - m@.len(),
                h@.len() <= usize::MAX,
                i <= bound,
                j <= mlen,
                matched ==> forall|jj: int| 0 <= jj < j ==> h@[i + jj] == m@[jj],
                !matched ==> h@.subrange(i as int, i + m@.len() as int) != m@,
            decreases mlen - j,
        {
            if h[i + j] != m[j] {
                proof {
                    assert(h@.subrange(i as int, i + m@.len() as int)[j as int] == h@[i + j]);
                }
                matched = false;
                j = mlen;
            } else {
                j = j + 1;
            }
        }
        if matched {
            proof {
                assert(h@.subrange(i as int, i + m@.len() as int) =~= m@);
            }
            return true;
        }
        i = i + 1;
    }
    proof {
        assert(forall|ii: int| 0 <= ii && ii + m@.len() <= h@.len() ==> #[trigger] h@.subrange(ii, ii + m@.len() as int) != m@);
    }
    false
}

/// The base filename of a slash-separated path: the bytes after the last
/// `'/'`, or the whole path when it holds no `'/'`.
pub open spec fn basename_of(p: Seq<u8>) -> Seq<u8>
    decreases p.len(),
{
    if p.len() == 0 {
        p
    } else if p[p.len() - 1] == SLASH {
        Seq::empty()
    } else {
        basename_of(p.drop_last()).push(p[p.len() - 1])
    }
}

proof fn lemma_basename_suffix(p: Seq<u8>, start: int)
    requires
        0 <= start <= p.len(),
        start == 0 || p[start - 1] == SLASH,
        forall|k: int| start <= k < p.len() ==> p[k] != SLASH,
    ensures
        basename_of(p) == p.skip(start),
    decreases p.len(),
{
    if p.len() == 0 {
        assert(p.skip(0) =~= p);
    } else if start == p.len() {
        assert(p[p.len() - 1] == SLASH);
        assert(basename_of(p) =~= p.skip(start));
    } else {
        assert(p[p.len() - 1] != SLASH);
        let q = p.drop_last();
        assert(forall|k: int| start <= k < q.len() ==> q[k] == p[k]);
        lemma_basename_suffix(q, start);
        assert(q.skip(start).push(p[p.len() - 1]) =~= p.skip(start));
    }
}

/// The base filename of `p`: the bytes after the last `'/'`.
pub fn basename(p: &Vec<u8>) -> (r: Vec<u8>)
    ensures
        r@ == basename_of(p@),
{
    let n = p.len();
    let mut start: usize = 0;
    let mut k: usize = 0;
    while k < n
        invariant
            n == p@.len(),
            k <= n,
            start <= k,
            start == 0 || p@[start - 1] == SLASH,
            forall|kk: int| start <= kk < k ==> p@[kk] != SLASH,
        decreases n - k,
    {
        if p[k] == SLASH {
            start = k + 1;
        }
        k = k + 1;
    }
    proof {
        lemma_basename_suffix(p@, start as int);
    }
    let mut r: Vec<u8> = Vec::new();
    let mut i: usize = start;
    while i < n
        invariant
            n == p@.len(),
            start <= i <= n,
            r@ == p@.subrange(start as int, i as int),
        decreases n - i,
    {
        r.push(p[i]);
        proof {
            assert(p@.subrange(start as int, i as int).push(p@[i as int]) =~= p@.subrange(
                start as int,
                i + 1,
            ));
        }
        i = i + 1;
    }
    proof {
        assert(p@.subrange(start as int, n as int) =~= p@.skip(start as int));
    }
    r
}

/// Containment survives extension of the haystack on either side.
pub proof fn lemma_contains_extend(a: Seq<u8>, h: Seq<u8>, b: Seq<u8>, m: Seq<u8>)
    requires
        spec_contains(h, m),
    ensures
        spec_contains(a + h + b, m),
{
    let i = choose|i: int|
        0 <= i && i + m.len() <= h.len() && #[trigger] h.subrange(i, i + m.len() as int) == m;
    let j = a.len() + i;
    assert((a + h + b).subrange(j as int, j + m.len() as int) =~= h.subrange(
        i,
        i + m.len() as int,
    ));
    assert(0 <= j && j + m.len() <= (a + h + b).len());
}

} // verus!
