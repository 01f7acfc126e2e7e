//! Length-prefixed (AVCC) NAL-unit framing.
//!
//! A length-prefixed buffer is a concatenation of records, each a 4-byte
//! big-endian unsigned length followed by that many payload bytes.
//! [`lp_records`] is the lenient parse of such a buffer: it returns the
//! longest well-formed prefix's payloads and silently drops a truncated
//! trailing record.  [`annex_b_of`] is the Annex-B rewrite of a record
//! sequence: each record framed by the 4-byte start code `00 00 00 01`.

use vstd::arithmetic::div_mod::{
    lemma_fundamental_div_mod, lemma_fundamental_div_mod_converse_div,
    lemma_fundamental_div_mod_converse_mod, lemma_mod_bound,
};
use vstd::prelude::*;

verus! {

/// The value of a 4-byte big-endian unsigned length header.
pub open spec fn be32(s: Seq<u8>) -> int
    recommends
        s.len() == 4,
{
    0x1000000 * (s[0] as int) + 0x10000 * (s[1] as int) + 0x100 * (s[2] as int) + (s[3] as int)
}

/// The 4-byte big-endian encoding of a length below 2^32.
pub open spec fn be32_bytes(n: int) -> Seq<u8>
    recommends
        0 <= n < 0x100000000,
{
    seq![
        (n / 0x1000000) as u8,
        ((n / 0x10000) % 0x100) as u8,
        ((n / 0x100) % 0x100) as u8,
        (n % 0x100) as u8,
    ]
}

/// The payloads of the well-formed records at the front of a length-prefixed
/// buffer, in stream order.  Scanning stops, without error, at the first
/// position with fewer than 4 bytes left or whose header declares a length
/// reaching past the end of the buffer; whatever follows is dropped.
pub open spec fn lp_records(s: Seq<u8>) -> Seq<Seq<u8>>
    decreases s.len(),
{
    if s.len() < 4 {
        Seq::empty()
    } else {
        let len = be32(s.subrange(0, 4));
        if s.len() < 4 + len {
            Seq::empty()
        } else {
            seq![s.subrange(4, 4 + len)] + lp_records(s.subrange(4 + len, s.len() as int))
        }
    }
}

/// The length-prefixed encoding of a record sequence: each record's length
/// as a 4-byte big-endian header, then its bytes, concatenated in order.
pub open spec fn lp_encode(nalus: Seq<Seq<u8>>) -> Seq<u8>
    decreases nalus.len(),
{
    if nalus.len() == 0 {
        Seq::empty()
    } else {
        be32_bytes(nalus[0].len() as int) + nalus[0] + lp_encode(nalus.drop_first())
    }
}

/// The 4-byte Annex-B start code.
pub open spec fn start_code() -> Seq<u8> {
    seq![0u8, 0u8, 0u8, 1u8]
}

/// The Annex-B framing of a record sequence: each record preceded by the
/// 4-byte start code, concatenated in order, nothing between or after.
pub open spec fn annex_b_of(nalus: Seq<Seq<u8>>) -> Seq<u8>
    decreases nalus.len(),
{
    if nalus.len() == 0 {
        Seq::empty()
    } else {
        start_code() + nalus[0] + annex_b_of(nalus.drop_first())
    }
}

/// Decoding a 4-byte big-endian header recovers the encoded value.
pub proof fn lemma_be32_inverse(n: int)
    requires
        0 <= n < 0x100000000,
    ensures
        be32_bytes(n).len() == 4,
        be32(be32_bytes(n)) == n,
{
    let a = n / 0x1000000;
    lemma_fundamental_div_mod(n, 0x1000000);
    lemma_mod_bound(n, 0x1000000);
    let r1 = n % 0x1000000;
    // n == 0x1000000 * a + r1, 0 <= r1 < 0x1000000, 0 <= a < 0x100
    lemma_fundamental_div_mod(r1, 0x10000);
    lemma_mod_bound(r1, 0x10000);
    let b = r1 / 0x10000;
    let r2 = r1 % 0x10000;
    // r1 == 0x10000 * b + r2, 0 <= r2 < 0x10000, 0 <= b < 0x100
    lemma_fundamental_div_mod(r2, 0x100);
    lemma_mod_bound(r2, 0x100);
    let c = r2 / 0x100;
    let d = r2 % 0x100;
    // r2 == 0x100 * c + d, 0 <= d < 0x100, 0 <= c < 0x100
    assert(n == 0x1000000 * a + 0x10000 * b + 0x100 * c + d);
    lemma_fundamental_div_mod_converse_div(n, 0x10000, 0x100 * a + b, r2);
    lemma_fundamental_div_mod_converse_mod(0x100 * a + b, 0x100, a, b);
    assert((n / 0x10000) % 0x100 == b);
    lemma_fundamental_div_mod_converse_div(n, 0x100, 0x10000 * a + 0x100 * b + c, d);
    lemma_fundamental_div_mod_converse_mod(0x10000 * a + 0x100 * b + c, 0x100, 0x100 * a + b, c);
    assert((n / 0x100) % 0x100 == c);
    lemma_fundamental_div_mod_converse_mod(n, 0x100, 0x10000 * a + 0x100 * b + c, d);
    assert(n % 0x100 == d);
}

/// Law: the lenient parse drops a trailing fragment and nothing more.  A
/// buffer made of whole records followed by a tail that holds no complete
/// record — fewer than 4 bytes, or a header whose declared length reaches
/// past the end — parses to exactly those records, in order.
pub proof fn lemma_lp_truncation(nalus: Seq<Seq<u8>>, tail: Seq<u8>)
    requires
        forall|i: int| 0 <= i < nalus.len() ==> #[trigger] nalus[i].len() < 0x100000000,
        tail.len() < 4 || tail.len() < 4 + be32(tail.subrange(0, 4)),
    ensures
        lp_records(lp_encode(nalus) + tail) == nalus,
    decreases nalus.len(),
{
    if nalus.len() == 0 {
        assert(lp_encode(nalus) + tail =~= tail);
        if tail.len() >= 4 {
            assert(lp_records(tail) == Seq::<Seq<u8>>::empty());
        }
        assert(lp_records(lp_encode(nalus) + tail) =~= nalus);
    } else {
        let u0 = nalus[0];
        let len = u0.len() as int;
        lemma_be32_inverse(len);
        let rest = lp_encode(nalus.drop_first()) + tail;
        let s = lp_encode(nalus) + tail;
        assert(s =~= be32_bytes(len) + u0 + rest);
        assert(s.subrange(0, 4) =~= be32_bytes(len));
        assert(be32(s.subrange(0, 4)) == len);
        assert(s.len() >= 4 + len);
        assert(s.subrange(4, 4 + len) =~= u0);
        assert(s.subrange(4 + len, s.len() as int) =~= rest);
        lemma_lp_truncation(nalus.drop_first(), tail);
        assert(lp_records(s) == seq![u0] + lp_records(rest));
        assert(seq![u0] + nalus.drop_first() =~= nalus);
    }
}

/// Law: round trip.  Encoding any record sequence whose records each fit a
/// 32-bit length and parsing the result returns exactly those records.
pub proof fn lemma_lp_round_trip(nalus: Seq<Seq<u8>>)
    requires
        forall|i: int| 0 <= i < nalus.len() ==> #[trigger] nalus[i].len() < 0x100000000,
    ensures
        lp_records(lp_encode(nalus)) == nalus,
{
    lemma_lp_truncation(nalus, Seq::empty());
    assert(lp_encode(nalus) + Seq::<u8>::empty() =~= lp_encode(nalus));
}

/// Law: rewriting an encoded record sequence to Annex B frames exactly those
/// records with the 4-byte start code.
pub proof fn lemma_lp_encode_to_annex_b(nalus: Seq<Seq<u8>>)
    requires
        forall|i: int| 0 <= i < nalus.len() ==> #[trigger] nalus[i].len() < 0x100000000,
    ensures
        annex_b_of(lp_records(lp_encode(nalus))) == annex_b_of(nalus),
{
    lemma_lp_round_trip(nalus);
}

/// Appending one record to a sequence appends one start code and the record
/// to its Annex-B framing.
pub proof fn lemma_annex_b_of_push(nalus: Seq<Seq<u8>>, u: Seq<u8>)
    ensures
        annex_b_of(nalus.push(u)) == annex_b_of(nalus) + start_code() + u,
    decreases nalus.len(),
{
    if nalus.len() == 0 {
        assert(nalus.push(u).drop_first() =~= Seq::<Seq<u8>>::empty());
        assert(annex_b_of(nalus.push(u)) == start_code() + nalus.push(u)[0] + annex_b_of(
            nalus.push(u).drop_first(),
        ));
        assert(nalus.push(u)[0] == u);
        assert(start_code() + u + annex_b_of(Seq::<Seq<u8>>::empty()) =~= annex_b_of(nalus)
            + start_code() + u);
        assert(annex_b_of(nalus.push(u)) == annex_b_of(nalus) + start_code() + u);
    } else {
        lemma_annex_b_of_push(nalus.drop_first(), u);
        assert(nalus.push(u).drop_first() =~= nalus.drop_first().push(u));
        assert(nalus.push(u)[0] == nalus[0]);
        assert(annex_b_of(nalus.push(u)) == start_code() + nalus[0] + annex_b_of(
            nalus.drop_first().push(u),
        ));
        assert(annex_b_of(nalus) == start_code() + nalus[0] + annex_b_of(nalus.drop_first()));
        assert(start_code() + nalus[0] + (annex_b_of(nalus.drop_first()) + start_code() + u)
            =~= (start_code() + nalus[0] + annex_b_of(nalus.drop_first())) + start_code() + u);
        assert(annex_b_of(nalus.push(u)) == annex_b_of(nalus) + start_code() + u);
    }
}

} // verus!
