//! Annex-B start-code scanning.
//!
//! An Annex-B byte stream carries NAL units each preceded by a start code,
//! `00 00 01` or `00 00 00 01`.  [`annex_b_nalus`] is the partition of a
//! buffer at start-code boundaries: each NAL unit runs from the end of its
//! start code to the beginning of the next one (or the end of the buffer).
//! Bytes before the first start code are skipped; a buffer with no start
//! code yields nothing.  [`annex_b_split`] computes it.

use vstd::prelude::*;

verus! {

/// A 3-byte start code `00 00 01` begins at position `i`.
pub open spec fn is_start_3(s: Seq<u8>, i: int) -> bool {
    &&& 0 <= i
    &&& i + 3 <= s.len()
    &&& s[i] == 0u8
    &&& s[i + 1] == 0u8
    &&& s[i + 2] == 1u8
}

/// A 4-byte start code `00 00 00 01` begins at position `i`.
pub open spec fn is_start_4(s: Seq<u8>, i: int) -> bool {
    &&& 0 <= i
    &&& i + 4 <= s.len()
    &&& s[i] == 0u8
    &&& s[i + 1] == 0u8
    &&& s[i + 2] == 0u8
    &&& s[i + 3] == 1u8
}

/// A start code of either form begins at position `i`.
pub open spec fn is_start(s: Seq<u8>, i: int) -> bool {
    is_start_3(s, i) || is_start_4(s, i)
}

/// How many bytes the start code at position `i` takes.  The longer form
/// wins where both could match, so `00 00 00 01` is one 4-byte start code.
pub open spec fn start_len(s: Seq<u8>, i: int) -> int {
    if is_start_4(s, i) {
        4
    } else {
        3
    }
}

/// The first position at or after `i` where a start code begins, or the
/// buffer's length if there is none.
pub open spec fn next_start(s: Seq<u8>, i: int) -> int
    decreases s.len() - i,
{
    if i >= s.len() {
        s.len() as int
    } else if is_start(s, i) {
        i
    } else {
        next_start(s, i + 1)
    }
}

/// The NAL units from the start code at position `i` (inclusive) to the end
/// of the buffer: the bytes after that start code up to the next start code,
/// then the rest.
pub open spec fn nalus_from(s: Seq<u8>, i: int) -> Seq<Seq<u8>>
    recommends
        is_start(s, i),
    decreases s.len() - i,
{
    if !is_start(s, i) {
        Seq::empty()
    } else {
        let cs = i + start_len(s, i);
        let j = next_start(s, cs);
        let rest = if i < j && j < s.len() {
            nalus_from(s, j)
        } else {
            Seq::empty()
        };
        seq![s.subrange(cs, j)] + rest
    }
}

/// The partition of an Annex-B buffer at start-code boundaries: one entry
/// per NAL unit, in stream order.  Bytes before the first start code are
/// skipped; no start code at all yields the empty sequence.
pub open spec fn annex_b_nalus(s: Seq<u8>) -> Seq<Seq<u8>> {
    let i = next_start(s, 0);
    if i < s.len() {
        nalus_from(s, i)
    } else {
        Seq::empty()
    }
}

/// `next_start` lands on the first start code at or after `i`, or on the
/// buffer's end if there is none.
pub proof fn lemma_next_start(s: Seq<u8>, i: int)
    requires
        0 <= i <= s.len(),
    ensures
        i <= next_start(s, i) <= s.len(),
        next_start(s, i) < s.len() ==> is_start(s, next_start(s, i)),
        forall|j: int| i <= j < next_start(s, i) ==> !is_start(s, j),
    decreases s.len() - i,
{
    if i < s.len() && !is_start(s, i) {
        lemma_next_start(s, i + 1);
    }
}

/// A scan that saw no start code strictly before `k`, and a start code or
/// the buffer's end at `k`, has found `next_start`.
pub proof fn lemma_next_start_found(s: Seq<u8>, i: int, k: int)
    requires
        0 <= i <= k <= s.len(),
        forall|j: int| i <= j < k ==> !is_start(s, j),
        k == s.len() || is_start(s, k),
    ensures
        next_start(s, i) == k,
    decreases k - i,
{
    if i < k {
        assert(!is_start(s, i));
        lemma_next_start_found(s, i + 1, k);
    }
}

/// Whether a start code begins at position `i` of the slice.
fn start_code_at(data: &[u8], i: usize) -> (r: bool)
    requires
        i <= data@.len(),
    ensures
        r == is_start(data@, i as int),
{
    let n = data.len();
    if n - i < 3 {
        return false;
    }
    let b0 = *vstd::slice::slice_index_get(data, i);
    let b1 = *vstd::slice::slice_index_get(data, i + 1);
    let b2 = *vstd::slice::slice_index_get(data, i + 2);
    if b0 != 0 || b1 != 0 {
        return false;
    }
    if b2 == 1 {
        return true;
    }
    if b2 == 0 && n - i >= 4 {
        let b3 = *vstd::slice::slice_index_get(data, i + 3);
        b3 == 1
    } else {
        false
    }
}

/// The position of the first start code at or after `from`, or the slice's
/// length if there is none.
fn find_start(data: &[u8], from: usize) -> (r: usize)
    requires
        from <= data@.len(),
    ensures
        r == next_start(data@, from as int),
{
    let n = data.len();
    let mut i = from;
    while i < n
        invariant
            from <= i <= n,
            n == data@.len(),
            forall|j: int| from <= j < i ==> !is_start(data@, j),
        decreases n - i,
    {
        if start_code_at(data, i) {
            proof {
                lemma_next_start_found(data@, from as int, i as int);
            }
            return i;
        }
        i = i + 1;
    }
    proof {
        lemma_next_start_found(data@, from as int, n as int);
    }
    n
}

/// Splits an Annex-B buffer into its NAL units: one borrowed slice per unit,
/// in stream order, exactly the partition that [`annex_b_nalus`] gives.
pub fn annex_b_split<'a>(data: &'a [u8]) -> (r: Vec<&'a [u8]>)
    ensures
        r@.map_values(|s: &[u8]| s@) == annex_b_nalus(data@),
{
    let n = data.len();
    let mut ret: Vec<&[u8]> = Vec::new();
    let mut pos = find_start(data, 0);
    proof {
        lemma_next_start(data@, 0);
        assert(ret@.map_values(|s: &[u8]| s@) =~= Seq::<Seq<u8>>::empty());
    }
    while pos < n
        invariant
            pos <= n,
            n == data@.len(),
            pos < n ==> is_start(data@, pos as int),
            annex_b_nalus(data@) == ret@.map_values(|s: &[u8]| s@) + (if pos < n {
                nalus_from(data@, pos as int)
            } else {
                Seq::<Seq<u8>>::empty()
            }),
        decreases n - pos,
    {
        let ghost prev = ret@.map_values(|s: &[u8]| s@);
        let four = n - pos >= 4 && *vstd::slice::slice_index_get(data, pos + 2) == 0
            && *vstd::slice::slice_index_get(data, pos + 3) == 1;
        proof {
            assert(four == is_start_4(data@, pos as int));
        }
        let cs = if four {
            pos + 4
        } else {
            pos + 3
        };
        proof {
            assert(cs as int == pos + start_len(data@, pos as int));
        }
        let j = find_start(data, cs);
        proof {
            lemma_next_start(data@, cs as int);
        }
        let nalu = vstd::slice::slice_subrange(data, cs, j);
        ret.push(nalu);
        proof {
            assert(nalus_from(data@, pos as int) == seq![data@.subrange(cs as int, j as int)]
                + (if pos < j && j < n {
                nalus_from(data@, j as int)
            } else {
                Seq::<Seq<u8>>::empty()
            }));
            assert(ret@.map_values(|s: &[u8]| s@) =~= prev.push(nalu@));
            assert(prev.push(nalu@) + (if j < n {
                nalus_from(data@, j as int)
            } else {
                Seq::<Seq<u8>>::empty()
            }) =~= prev + nalus_from(data@, pos as int));
        }
        pos = j;
    }
    proof {
        assert(annex_b_nalus(data@) == ret@.map_values(|s: &[u8]| s@) + Seq::<Seq<u8>>::empty());
        assert(ret@.map_values(|s: &[u8]| s@) + Seq::<Seq<u8>>::empty() =~= ret@.map_values(
            |s: &[u8]| s@,
        ));
    }
    ret
}

} // verus!
