//! The vector index: fixed-dimension embedding storage with cosine
//! similarity search.
//!
//! Vector components are fixed-point values held as `i32` (the embedding's
//! real components times a fixed scale; cosine similarity does not depend on
//! the scale).  Similarity is reported as a fixed-point value scaled by
//! [`SIM_SCALE`]: `dot(a,b) * SIM_SCALE / (isqrt(dot(a,a)) * isqrt(dot(b,b)))`,
//! and zero when either vector has zero magnitude or the lengths differ.

use vstd::bytes::{
    lemma_auto_spec_u32_to_from_le_bytes, spec_u32_from_le_bytes, spec_u32_to_le_bytes,
    u32_from_le_bytes, u32_to_le_bytes,
};
use vstd::prelude::*;
use vstd::slice::slice_subrange;

use crate::errors::{StorageError, StorageResult};
use crate::table::{lists_keys_once, table_entries, table_entry_order, DocTable};

verus! {

/// The fixed-point scale of reported similarities: a similarity of one maps
/// to this value.
pub const SIM_SCALE: i64 = 1_000_000;

/// The largest dimension the index accepts; a stored vector occupies four
/// bytes per component and at most 16384 bytes.
pub const MAX_DIM: usize = 4096;

/// The four-byte little-endian image of a vector component.
pub open spec fn u32_of_i32(c: int) -> u32 {
    (c as i32) as u32
}

/// The signed reading of a four-byte little-endian image.
pub open spec fn i32_of_u32(x: u32) -> int {
    (x as i32) as int
}

/// Reading back the image of a component yields the component.
pub proof fn lemma_i32_u32_round_trip()
    ensures
        forall|c: i32| #[trigger] ((c as u32) as i32) == c,
{
    assert forall|c: i32| #[trigger] ((c as u32) as i32) == c by {
        assert((c as u32) as i32 == c) by (bit_vector);
    }
}

/// The byte encoding of a vector: four little-endian bytes per component.
pub open spec fn enc_comps(cs: Seq<i32>) -> Seq<u8>
    decreases cs.len(),
{
    if cs.len() == 0 {
        Seq::empty()
    } else {
        spec_u32_to_le_bytes(u32_of_i32(cs[0] as int)) + enc_comps(cs.skip(1))
    }
}

/// The decoding of a byte string into components, four bytes at a time; a
/// trailing fragment shorter than four bytes is ignored.
pub open spec fn dec_comps(bytes: Seq<u8>) -> Seq<i32>
    decreases bytes.len(),
{
    if bytes.len() < 4 {
        Seq::empty()
    } else {
        seq![i32_of_u32(spec_u32_from_le_bytes(bytes.subrange(0, 4))) as i32] + dec_comps(
            bytes.skip(4),
        )
    }
}

/// An encoded vector is four bytes per component.
pub proof fn lemma_enc_comps_len(cs: Seq<i32>)
    ensures
        enc_comps(cs).len() == 4 * cs.len(),
    decreases cs.len(),
{
    lemma_auto_spec_u32_to_from_le_bytes();
    if cs.len() > 0 {
        lemma_enc_comps_len(cs.skip(1));
    }
}

/// Decoding an encoded vector yields the vector back.
pub proof fn lemma_comps_round_trip(cs: Seq<i32>)
    ensures
        dec_comps(enc_comps(cs)) == cs,
    decreases cs.len(),
{
    lemma_auto_spec_u32_to_from_le_bytes();
    lemma_i32_u32_round_trip();
    if cs.len() == 0 {
        assert(dec_comps(enc_comps(cs)) =~= cs);
    } else {
        let w = spec_u32_to_le_bytes(u32_of_i32(cs[0] as int));
        let e = enc_comps(cs);
        lemma_enc_comps_len(cs.skip(1));
        assert(e.subrange(0, 4) =~= w);
        assert(e.skip(4) =~= enc_comps(cs.skip(1)));
        lemma_comps_round_trip(cs.skip(1));
        assert(dec_comps(e) =~= cs);
    }
}

/// Append the encoding of one more component.
pub proof fn lemma_enc_comps_snoc(cs: Seq<i32>, c: i32)
    ensures
        enc_comps(cs.push(c)) == enc_comps(cs) + spec_u32_to_le_bytes(u32_of_i32(c as int)),
    decreases cs.len(),
{
    if cs.len() == 0 {
        assert(cs.push(c)[0] == c);
        assert(cs.push(c).skip(1) =~= Seq::<i32>::empty());
        assert(enc_comps(cs.push(c).skip(1)) =~= Seq::<u8>::empty());
        assert(enc_comps(cs.push(c)) =~= enc_comps(cs) + spec_u32_to_le_bytes(
            u32_of_i32(c as int),
        ));
    } else {
        lemma_enc_comps_snoc(cs.skip(1), c);
        assert(cs.push(c).skip(1) =~= cs.skip(1).push(c));
        assert(enc_comps(cs.push(c)) =~= enc_comps(cs) + spec_u32_to_le_bytes(
            u32_of_i32(c as int),
        ));
    }
}

/// Turn a vector into its stored bytes.
#[verifier::loop_isolation(false)]
pub fn encode_comps(cs: &Vec<i32>) -> (r: Vec<u8>)
    ensures
        r@ == enc_comps(cs@),
{
    let n = cs.len();
    let mut out: Vec<u8> = Vec::new();
    let mut i: usize = 0;
    proof {
        assert(cs@.subrange(0, 0) =~= Seq::<i32>::empty());
        assert(out@ =~= enc_comps(cs@.subrange(0, 0)));
    }
    while i < n
        invariant
            0 <= i <= n,
            n == cs@.len(),
            out@ == enc_comps(cs@.subrange(0, i as int)),
        decreases n - i,
    {
        let mut w = u32_to_le_bytes(cs[i] as u32);
        out.append(&mut w);
        proof {
            lemma_enc_comps_snoc(cs@.subrange(0, i as int), cs@[i as int]);
            assert(cs@.subrange(0, i as int).push(cs@[i as int]) =~= cs@.subrange(0, i as int + 1));
        }
        i = i + 1;
    }
    proof {
        assert(cs@.subrange(0, n as int) =~= cs@);
    }
    out
}

/// Turn stored bytes back into a vector, four bytes at a time; a trailing
/// fragment is ignored.
#[verifier::loop_isolation(false)]
pub fn decode_comps(bytes: &Vec<u8>) -> (r: Vec<i32>)
    ensures
        r@ == dec_comps(bytes@),
{
    let n = bytes.len();
    let mut out: Vec<i32> = Vec::new();
    let mut pos: usize = 0;
    proof {
        assert(bytes@.skip(0) =~= bytes@);
        assert(Seq::<i32>::empty() + dec_comps(bytes@) =~= dec_comps(bytes@));
    }
    while n - pos >= 4
        invariant
            0 <= pos <= n,
            n == bytes@.len(),
            pos % 4 == 0,
            dec_comps(bytes@) == out@ + dec_comps(bytes@.skip(pos as int)),
        decreases n - pos,
    {
        let x = u32_from_le_bytes(slice_subrange(bytes.as_slice(), pos, pos + 4));
        let ghost rest = bytes@.skip(pos as int);
        proof {
            assert(rest.subrange(0, 4) =~= bytes@.subrange(pos as int, pos as int + 4));
            assert(rest.skip(4) =~= bytes@.skip(pos as int + 4));
            assert(out@.push((x as i32)) + dec_comps(bytes@.skip(pos as int + 4)) =~= out@ + (seq![
                (x as i32),
            ] + dec_comps(bytes@.skip(pos as int + 4))));
        }
        out.push(x as i32);
        pos = pos + 4;
    }
    proof {
        assert(dec_comps(bytes@.skip(pos as int)) =~= Seq::<i32>::empty());
        assert(out@ + Seq::<i32>::empty() =~= out@);
    }
    out
}

/// The dot product of two component sequences.
pub open spec fn dot_s(a: Seq<i32>, b: Seq<i32>) -> int
    decreases a.len(),
{
    if a.len() == 0 || b.len() == 0 {
        0
    } else {
        dot_s(a.drop_last(), b.drop_last()) + (a.last() as int) * (b.last() as int)
    }
}

/// A dot product of equal-length vectors is bounded by the length times the
/// largest component product.
pub proof fn lemma_dot_bound(a: Seq<i32>, b: Seq<i32>)
    requires
        a.len() == b.len(),
    ensures
        -(a.len() as int) * 0x4000_0000_0000_0000 <= dot_s(a, b) <= (a.len() as int)
            * 0x4000_0000_0000_0000,
    decreases a.len(),
{
    if a.len() == 0 {
    } else {
        lemma_dot_bound(a.drop_last(), b.drop_last());
        let x = a.last() as int;
        let y = b.last() as int;
        assert(-0x4000_0000_0000_0000 <= x * y <= 0x4000_0000_0000_0000) by (nonlinear_arith)
            requires
                -0x8000_0000 <= x <= 0x7fff_ffff,
                -0x8000_0000 <= y <= 0x7fff_ffff;
        assert((a.len() as int) * 0x4000_0000_0000_0000 == (a.drop_last().len() as int)
            * 0x4000_0000_0000_0000 + 0x4000_0000_0000_0000) by (nonlinear_arith)
            requires
                a.len() >= 1 && a.drop_last().len() == a.len() - 1;
    }
}

/// A vector's dot product with itself is never negative.
pub proof fn lemma_dot_self_nonneg(a: Seq<i32>)
    ensures
        dot_s(a, a) >= 0,
    decreases a.len(),
{
    if a.len() > 0 {
        lemma_dot_self_nonneg(a.drop_last());
        let x = a.last() as int;
        assert(x * x >= 0) by (nonlinear_arith);
    }
}

/// Compute the dot product; the accumulator cannot overflow because
/// components are 32-bit and the vectors are short.
#[verifier::loop_isolation(false)]
pub fn dot(a: &Vec<i32>, b: &Vec<i32>) -> (r: i128)
    requires
        a@.len() == b@.len(),
        a@.len() <= MAX_DIM,
    ensures
        r as int == dot_s(a@, b@),
{
    let n = a.len();
    let mut acc: i128 = 0;
    let mut i: usize = 0;
    proof {
        assert(a@.subrange(0, 0) =~= Seq::<i32>::empty());
    }
    while i < n
        invariant
            0 <= i <= n,
            n == a@.len(),
            acc as int == dot_s(a@.subrange(0, i as int), b@.subrange(0, i as int)),
            -(i as int) * 0x4000_0000_0000_0000 <= acc as int <= (i as int)
                * 0x4000_0000_0000_0000,
        decreases n - i,
    {
        let x = a[i] as i128;
        let y = b[i] as i128;
        proof {
            assert(-0x4000_0000_0000_0000 <= (x as int) * (y as int) <= 0x4000_0000_0000_0000)
                by (nonlinear_arith)
                requires
                    -0x8000_0000 <= x as int <= 0x7fff_ffff,
                    -0x8000_0000 <= y as int <= 0x7fff_ffff;
            assert((i as int + 1) * 0x4000_0000_0000_0000 == (i as int) * 0x4000_0000_0000_0000
                + 0x4000_0000_0000_0000) by (nonlinear_arith);
            assert((i as int) * 0x4000_0000_0000_0000 <= 4096 * 0x4000_0000_0000_0000)
                by (nonlinear_arith)
                requires
                    0 <= i as int <= 4096;
            let ai = a@.subrange(0, i as int + 1);
            let bi = b@.subrange(0, i as int + 1);
            assert(ai.drop_last() =~= a@.subrange(0, i as int));
            assert(bi.drop_last() =~= b@.subrange(0, i as int));
            assert(ai.last() == a@[i as int] && bi.last() == b@[i as int]);
        }
        acc = acc + x * y;
        i = i + 1;
    }
    proof {
        assert(a@.subrange(0, n as int) =~= a@);
        assert(b@.subrange(0, n as int) =~= b@);
    }
    acc
}

/// Whether `r` is the integer square root of `n`: the largest integer whose
/// square does not exceed `n`.
pub open spec fn is_isqrt(n: int, r: int) -> bool {
    0 <= r && r * r <= n && n < (r + 1) * (r + 1)
}

/// The integer square root, as a function.
pub open spec fn isqrt_s(n: int) -> int
    decreases n,
{
    if n < 1 {
        0
    } else {
        let p = isqrt_s(n - 1);
        if (p + 1) * (p + 1) <= n {
            p + 1
        } else {
            p
        }
    }
}

/// The integer square root satisfies its characterization.
pub proof fn lemma_isqrt_s(n: int)
    requires
        n >= 0,
    ensures
        is_isqrt(n, isqrt_s(n)),
    decreases n,
{
    if n == 0 {
    } else {
        lemma_isqrt_s(n - 1);
        let p = isqrt_s(n - 1);
        assert((p + 1) * (p + 1) < (p + 2) * (p + 2)) by (nonlinear_arith)
            requires
                p >= 0;
    }
}

/// Only one integer satisfies the square-root characterization.
pub proof fn lemma_isqrt_unique(n: int, a: int, b: int)
    requires
        is_isqrt(n, a),
        is_isqrt(n, b),
    ensures
        a == b,
{
    assert(a == b) by (nonlinear_arith)
        requires
            0 <= a && a * a <= n && n < (a + 1) * (a + 1),
            0 <= b && b * b <= n && n < (b + 1) * (b + 1);
}

/// Compute the integer square root by bisection.
#[verifier::loop_isolation(false)]
pub fn isqrt(n: u128) -> (r: u128)
    ensures
        r as int == isqrt_s(n as int),
{
    proof {
        lemma_isqrt_s(n as int);
    }
    if n == 0 {
        proof {
            lemma_isqrt_unique(n as int, 0, isqrt_s(n as int));
        }
        return 0;
    }
    let mut lo: u128 = 0;
    let mut hi: u128 = 0x1_0000_0000_0000_0000u128;
    proof {
        assert((hi as int) * (hi as int) > n as int) by (nonlinear_arith)
            requires
                hi as int == 0x1_0000_0000_0000_0000,
                n <= u128::MAX;
    }
    while lo + 1 < hi
        invariant
            0 <= lo < hi <= 0x1_0000_0000_0000_0000,
            (lo as int) * (lo as int) <= n as int,
            (hi as int) * (hi as int) > n as int,
        decreases hi - lo,
    {
        let mid = lo + (hi - lo) / 2;
        proof {
            assert((mid as int) * (mid as int) <= u128::MAX) by (nonlinear_arith)
                requires
                    0 <= mid as int <= 0xffff_ffff_ffff_ffff;
        }
        if mid * mid <= n {
            lo = mid;
        } else {
            hi = mid;
        }
    }
    proof {
        lemma_isqrt_unique(n as int, lo as int, isqrt_s(n as int));
    }
    lo
}

/// The similarity of two vectors, scaled by [`SIM_SCALE`]: the fixed-point
/// cosine of the angle between them; zero when the lengths differ or either
/// magnitude is zero.  The value is clamped to `[-SIM_SCALE, SIM_SCALE]`:
/// a cosine cannot leave that range, only rounding in the integer square
/// roots could.
pub open spec fn sim_s(q: Seq<i32>, v: Seq<i32>) -> int {
    if q.len() != v.len() {
        0
    } else {
        let d = dot_s(q, v);
        let den = isqrt_s(dot_s(q, q)) * isqrt_s(dot_s(v, v));
        if den == 0 {
            0
        } else {
            let mag = (if d < 0 {
                -d
            } else {
                d
            }) * (SIM_SCALE as int) / den;
            let sat = if mag > SIM_SCALE as int {
                SIM_SCALE as int
            } else {
                mag
            };
            if d < 0 {
                -sat
            } else {
                sat
            }
        }
    }
}

/// Compute the scaled cosine similarity of two vectors.
pub fn cosine_similarity(a: &Vec<i32>, b: &Vec<i32>) -> (r: i64)
    requires
        a@.len() <= MAX_DIM,
        b@.len() <= MAX_DIM,
    ensures
        r as int == sim_s(a@, b@),
        -SIM_SCALE <= r <= SIM_SCALE,
{
    if a.len() != b.len() {
        return 0;
    }
    let d = dot(a, b);
    let na = dot(a, a);
    let nb = dot(b, b);
    proof {
        lemma_dot_self_nonneg(a@);
        lemma_dot_self_nonneg(b@);
        lemma_dot_bound(a@, b@);
        lemma_dot_bound(a@, a@);
        lemma_dot_bound(b@, b@);
        assert((4096int) * 0x4000_0000_0000_0000 == 0x400_0000_0000_0000_0000);
        assert((a@.len() as int) * 0x4000_0000_0000_0000 <= 4096 * 0x4000_0000_0000_0000)
            by (nonlinear_arith)
            requires
                0 <= a@.len() as int <= 4096;
        assert((b@.len() as int) * 0x4000_0000_0000_0000 <= 4096 * 0x4000_0000_0000_0000)
            by (nonlinear_arith)
            requires
                0 <= b@.len() as int <= 4096;
    }
    let ra = isqrt(na as u128);
    let rb = isqrt(nb as u128);
    proof {
        lemma_isqrt_s(na as int);
        lemma_isqrt_s(nb as int);
        assert(ra as int <= 0x20_0000_0000) by (nonlinear_arith)
            requires
                0 <= ra as int,
                (ra as int) * (ra as int) <= 0x400_0000_0000_0000_0000;
        assert(rb as int <= 0x20_0000_0000) by (nonlinear_arith)
            requires
                0 <= rb as int,
                (rb as int) * (rb as int) <= 0x400_0000_0000_0000_0000;
        assert((ra as int) * (rb as int) <= 0x400_0000_0000_0000_0000_0000)
            by (nonlinear_arith)
            requires
                0 <= ra as int <= 0x20_0000_0000,
                0 <= rb as int <= 0x20_0000_0000;
    }
    let den = ra * rb;
    if den == 0 {
        return 0;
    }
    let mag_in: u128 = if d < 0 {
        (-d) as u128
    } else {
        d as u128
    };
    proof {
        assert(mag_in as int * (SIM_SCALE as int) <= 0x400_0000_0000_0000_0000int * 1_000_000)
            by (nonlinear_arith)
            requires
                0 <= mag_in as int <= 0x400_0000_0000_0000_0000;
    }
    let num: u128 = mag_in * (SIM_SCALE as u128);
    let mag = num / den;
    let sat: i64 = if mag > SIM_SCALE as u128 {
        SIM_SCALE
    } else {
        mag as i64
    };
    if d < 0 {
        -sat
    } else {
        sat
    }
}

/// One search hit: the vector's id, its scaled similarity to the query, and
/// the matching distance `SIM_SCALE - similarity`.
#[derive(Debug, PartialEq)]
pub struct VectorSearchResult {
    pub id: String,
    pub similarity: i64,
    pub distance: i64,
}

/// The pair a hit stands for: the key and the similarity.
pub open spec fn res_m(r: VectorSearchResult) -> (Seq<char>, int) {
    (r.id@, r.similarity as int)
}

/// The pairs a run of hits stands for.
pub open spec fn res_models(rs: Seq<VectorSearchResult>) -> Seq<(Seq<char>, int)> {
    rs.map_values(|r: VectorSearchResult| res_m(r))
}

/// Whether every hit reports the matching distance.
pub open spec fn distances_match(rs: Seq<VectorSearchResult>) -> bool {
    forall|i: int|
        0 <= i < rs.len() ==> (#[trigger] rs[i]).distance as int == SIM_SCALE - rs[i].similarity
}

/// `x` placed into a run sorted by weakly descending similarity, before the
/// first entry it ties or beats; insertion keeps ties in arrival order.
pub open spec fn insert_desc(
    x: (Seq<char>, int),
    s: Seq<(Seq<char>, int)>,
) -> Seq<(Seq<char>, int)>
    decreases s.len(),
{
    if s.len() == 0 {
        seq![x]
    } else if x.1 >= s[0].1 {
        seq![x] + s
    } else {
        seq![s[0]] + insert_desc(x, s.skip(1))
    }
}

/// The run sorted by weakly descending similarity; the stable sort of the
/// run, since each entry is placed before the later entries it ties.
pub open spec fn sort_desc(s: Seq<(Seq<char>, int)>) -> Seq<(Seq<char>, int)>
    decreases s.len(),
{
    if s.len() == 0 {
        Seq::empty()
    } else {
        insert_desc(s[0], sort_desc(s.skip(1)))
    }
}

/// At most the first `k` entries of a run.
pub open spec fn take_at_most(s: Seq<(Seq<char>, int)>, k: int) -> Seq<(Seq<char>, int)> {
    if s.len() <= k {
        s
    } else {
        s.subrange(0, k)
    }
}

/// When the first `pos` entries beat `x` and entry `pos` (if any) does not,
/// insertion puts `x` exactly at `pos`.
pub proof fn lemma_insert_desc_at(x: (Seq<char>, int), s: Seq<(Seq<char>, int)>, pos: int)
    requires
        0 <= pos <= s.len(),
        forall|j: int| 0 <= j < pos ==> (#[trigger] s[j]).1 > x.1,
        pos < s.len() ==> x.1 >= s[pos].1,
    ensures
        insert_desc(x, s) == s.subrange(0, pos) + seq![x] + s.skip(pos),
    decreases pos,
{
    if pos == 0 {
        if s.len() == 0 {
            assert(insert_desc(x, s) =~= s.subrange(0, 0) + seq![x] + s.skip(0));
        } else {
            assert(insert_desc(x, s) =~= s.subrange(0, 0) + seq![x] + s.skip(0));
        }
    } else {
        lemma_insert_desc_at(x, s.skip(1), pos - 1);
        assert(s.skip(1).subrange(0, pos - 1) =~= s.subrange(1, pos));
        assert(s.skip(1).skip(pos - 1) =~= s.skip(pos));
        assert(insert_desc(x, s) =~= s.subrange(0, pos) + seq![x] + s.skip(pos));
    }
}

/// The hits of a query among the stored vectors, in walk order: each key
/// whose vector's similarity reaches the threshold, with that similarity.
pub open spec fn hits_of(
    ks: Seq<Seq<char>>,
    vecs: Map<Seq<char>, Seq<i32>>,
    q: Seq<i32>,
    t: int,
) -> Seq<(Seq<char>, int)>
    decreases ks.len(),
{
    if ks.len() == 0 {
        Seq::empty()
    } else {
        (if sim_s(q, vecs[ks[0]]) >= t {
            seq![(ks[0], sim_s(q, vecs[ks[0]]))]
        } else {
            Seq::empty()
        }) + hits_of(ks.skip(1), vecs, q, t)
    }
}

/// One more key appends its hit, when its vector reaches the threshold.
pub proof fn lemma_hits_of_snoc(
    ks: Seq<Seq<char>>,
    vecs: Map<Seq<char>, Seq<i32>>,
    q: Seq<i32>,
    t: int,
    k: Seq<char>,
)
    ensures
        hits_of(ks.push(k), vecs, q, t) == hits_of(ks, vecs, q, t) + (if sim_s(q, vecs[k]) >= t {
            seq![(k, sim_s(q, vecs[k]))]
        } else {
            Seq::<(Seq<char>, int)>::empty()
        }),
    decreases ks.len(),
{
    let tail: Seq<(Seq<char>, int)> = if sim_s(q, vecs[k]) >= t {
        seq![(k, sim_s(q, vecs[k]))]
    } else {
        Seq::empty()
    };
    if ks.len() == 0 {
        assert(ks.push(k)[0] == k);
        assert(ks.push(k).skip(1) =~= Seq::<Seq<char>>::empty());
        assert(hits_of(ks.push(k).skip(1), vecs, q, t) =~= Seq::<(Seq<char>, int)>::empty());
        assert(hits_of(ks.push(k), vecs, q, t) =~= hits_of(ks, vecs, q, t) + tail);
    } else {
        lemma_hits_of_snoc(ks.skip(1), vecs, q, t, k);
        assert(ks.push(k).skip(1) =~= ks.skip(1).push(k));
        assert(hits_of(ks.push(k), vecs, q, t) =~= hits_of(ks, vecs, q, t) + tail);
    }
}

/// Every walked id whose vector clears the threshold contributes its hit.
pub proof fn lemma_hits_of_complete(
    ks: Seq<Seq<char>>,
    vecs: Map<Seq<char>, Seq<i32>>,
    q: Seq<i32>,
    t: int,
    kid: Seq<char>,
)
    requires
        ks.contains(kid),
        sim_s(q, vecs[kid]) >= t,
    ensures
        hits_of(ks, vecs, q, t).contains((kid, sim_s(q, vecs[kid]))),
    decreases ks.len(),
{
    if ks.len() > 0 {
        if ks[0] == kid {
            assert(hits_of(ks, vecs, q, t)[0] == (kid, sim_s(q, vecs[kid])));
        } else {
            let idx = choose|idx: int| 0 <= idx < ks.len() && ks[idx] == kid;
            assert(ks.skip(1)[idx - 1] == kid);
            lemma_hits_of_complete(ks.skip(1), vecs, q, t, kid);
            let j = choose|j: int|
                0 <= j < hits_of(ks.skip(1), vecs, q, t).len() && hits_of(ks.skip(1), vecs, q, t)[j]
                    == (kid, sim_s(q, vecs[kid]));
            let head: Seq<(Seq<char>, int)> = if sim_s(q, vecs[ks[0]]) >= t {
                seq![(ks[0], sim_s(q, vecs[ks[0]]))]
            } else {
                Seq::empty()
            };
            assert(hits_of(ks, vecs, q, t)[j + head.len()] == (kid, sim_s(q, vecs[kid])));
        }
    }
}

/// The empty vector map.
pub open spec fn no_vectors() -> Map<Seq<char>, Seq<i32>> {
    Map::empty()
}

/// Fixed-dimension embedding storage with cosine-similarity search.
pub struct IcpVectorStorage {
    table: DocTable,
    mirror: Ghost<Map<Seq<char>, Seq<i32>>>,
    dim: usize,
}

impl IcpVectorStorage {
    /// The vectors held, by id.
    pub closed spec fn vectors(self) -> Map<Seq<char>, Seq<i32>> {
        self.mirror@
    }

    /// The configured dimension.
    pub closed spec fn dimension(self) -> int {
        self.dim as int
    }

    /// Internal consistency: the table holds, under exactly the model's
    /// ids, the encodings of the model's vectors, all of storable length,
    /// and the dimension is storable.
    pub closed spec fn wf(self) -> bool {
        &&& table_entries(self.table).dom() == self.mirror@.dom()
        &&& self.mirror@.dom().finite()
        &&& forall|k: Seq<char>|
            #[trigger] self.mirror@.dom().contains(k) ==> table_entries(self.table)[k] == enc_comps(
                self.mirror@[k],
            ) && self.mirror@[k].len() <= MAX_DIM
        &&& self.dim <= MAX_DIM
    }

    /// The stored ids, in the order searches walk them.
    pub closed spec fn id_order(self) -> Seq<Seq<char>> {
        table_entry_order(table_entries(self.table))
    }

    /// A fresh, empty index over the default embedding dimension.
    pub fn new() -> (r: IcpVectorStorage)
        ensures
            r.wf(),
            r.vectors() == no_vectors(),
            r.dimension() == 384,
    {
        IcpVectorStorage { table: DocTable::new(), mirror: Ghost(Map::empty()), dim: 384 }
    }

    /// (Re)configure the expected vector length; stored vectors of another
    /// dimension are not purged, callers clear first when changing it.
    pub fn init(&mut self, dimension: usize) -> (r: StorageResult<()>)
        requires
            old(self).wf(),
            dimension <= MAX_DIM,
        ensures
            final(self).wf(),
            r is Ok,
            final(self).dimension() == dimension,
            final(self).vectors() == old(self).vectors(),
    {
        self.dim = dimension;
        Ok(())
    }

    /// Upsert a vector; a vector of the wrong length is rejected, not
    /// truncated or padded, and nothing changes.
    pub fn add(&mut self, id: &str, vector: &Vec<i32>) -> (r: StorageResult<()>)
        requires
            old(self).wf(),
        ensures
            final(self).wf(),
            final(self).dimension() == old(self).dimension(),
            if vector@.len() == old(self).dimension() {
                r is Ok && final(self).vectors() == old(self).vectors().insert(id@, vector@)
            } else {
                r == Err::<(), StorageError>(
                    StorageError::DimensionMismatch {
                        expected: old(self).dimension() as usize,
                        actual: vector.len(),
                    },
                ) && final(self).vectors() == old(self).vectors()
            },
    {
        if vector.len() != self.dim {
            return Err(StorageError::DimensionMismatch { expected: self.dim, actual: vector.len() });
        }
        let key = id.to_owned();
        let bytes = encode_comps(vector);
        self.table.insert(key, bytes);
        proof {
            self.mirror@ = self.mirror@.insert(id@, vector@);
            assert(table_entries(self.table).dom() =~= self.mirror@.dom());
        }
        Ok(())
    }

    /// Remove a vector; a no-op when none is stored under the id.
    pub fn remove(&mut self, id: &str) -> (r: StorageResult<()>)
        requires
            old(self).wf(),
        ensures
            final(self).wf(),
            r is Ok,
            final(self).dimension() == old(self).dimension(),
            final(self).vectors() == old(self).vectors().remove(id@),
    {
        let key = id.to_owned();
        let _removed = self.table.remove(&key);
        proof {
            self.mirror@ = self.mirror@.remove(id@);
            assert(table_entries(self.table).dom() =~= self.mirror@.dom());
        }
        Ok(())
    }

    /// Cosine-similarity search: every stored vector is scored against the
    /// query; scores below the threshold are dropped, the rest are sorted by
    /// descending similarity (ties in walk order) and the first `k` kept.  A
    /// query of the wrong length is rejected and nothing is touched.
    #[verifier::loop_isolation(false)]
    pub fn search(&self, query: &Vec<i32>, k: usize, threshold: i64) -> (r: StorageResult<
        Vec<VectorSearchResult>,
    >)
        requires
            self.wf(),
        ensures
            match r {
                Ok(rs) => query@.len() == self.dimension() && res_models(rs@) == take_at_most(
                    sort_desc(hits_of(self.id_order(), self.vectors(), query@, threshold as int)),
                    k as int,
                ) && distances_match(rs@) && lists_keys_once(
                    self.id_order(),
                    self.vectors().dom(),
                ),
                Err(e) => query@.len() != self.dimension() && e == (StorageError::DimensionMismatch {
                    expected: self.dimension() as usize,
                    actual: query.len(),
                }),
            },
    {
        if query.len() != self.dim {
            return Err(
                StorageError::DimensionMismatch { expected: self.dim, actual: query.len() },
            );
        }
        let entries = self.table.entries();
        proof {
            self.lemma_walk_lists_ids(entries@);
        }
        let n = entries.len();
        let mut found: Vec<VectorSearchResult> = Vec::new();
        let mut i: usize = 0;
        proof {
            assert(self.id_order().subrange(0, 0) =~= Seq::<Seq<char>>::empty());
            assert(res_models(found@) =~= hits_of(
                self.id_order().subrange(0, 0),
                self.vectors(),
                query@,
                threshold as int,
            ));
        }
        while i < n
            invariant
                0 <= i <= n,
                n == entries@.len(),
                res_models(found@) == hits_of(
                    self.id_order().subrange(0, i as int),
                    self.vectors(),
                    query@,
                    threshold as int,
                ),
                distances_match(found@),
            decreases n - i,
        {
            let ghost kid = entries@[i as int].0@;
            proof {
                lemma_hits_of_snoc(
                    self.id_order().subrange(0, i as int),
                    self.vectors(),
                    query@,
                    threshold as int,
                    kid,
                );
                assert(self.id_order().subrange(0, i as int).push(kid) =~= self.id_order().subrange(
                    0,
                    i as int + 1,
                ));
                lemma_comps_round_trip(self.mirror@[kid]);
            }
            let stored = decode_comps(&entries[i].1);
            let sim = cosine_similarity(query, &stored);
            if sim >= threshold {
                let hit = VectorSearchResult {
                    id: entries[i].0.clone(),
                    similarity: sim,
                    distance: SIM_SCALE - sim,
                };
                let ghost before = found@;
                found.push(hit);
                proof {
                    assert(res_models(found@) =~= res_models(before).push(
                        (kid, sim as int),
                    ));
                    assert(res_models(found@) =~= hits_of(
                        self.id_order().subrange(0, i as int + 1),
                        self.vectors(),
                        query@,
                        threshold as int,
                    ));
                }
            } else {
                proof {
                    assert(res_models(found@) =~= hits_of(
                        self.id_order().subrange(0, i as int + 1),
                        self.vectors(),
                        query@,
                        threshold as int,
                    ));
                }
            }
            i = i + 1;
        }
        proof {
            assert(self.id_order().subrange(0, n as int) =~= self.id_order());
        }
        let ghost all_hits = res_models(found@);
        let mut sorted: Vec<VectorSearchResult> = Vec::new();
        let mut j: usize = found.len();
        proof {
            assert(all_hits.skip(j as int) =~= Seq::<(Seq<char>, int)>::empty());
            assert(res_models(sorted@) =~= sort_desc(all_hits.skip(j as int)));
        }
        while j > 0
            invariant
                0 <= j <= found@.len(),
                res_models(found@) == all_hits,
                distances_match(found@),
                res_models(sorted@) == sort_desc(all_hits.skip(j as int)),
                distances_match(sorted@),
            decreases j,
        {
            j = j - 1;
            let x = VectorSearchResult {
                id: found[j].id.clone(),
                similarity: found[j].similarity,
                distance: found[j].distance,
            };
            let ghost srt = res_models(sorted@);
            let m = sorted.len();
            let mut pos: usize = 0;
            while pos < m && sorted[pos].similarity > x.similarity
                invariant
                    0 <= pos <= m,
                    m == sorted@.len(),
                    forall|l: int|
                        0 <= l < pos ==> (#[trigger] sorted@[l]).similarity > x.similarity,
                decreases m - pos,
            {
                pos = pos + 1;
            }
            proof {
                lemma_insert_desc_at(res_m(x), srt, pos as int);
            }
            let ghost before = sorted@;
            sorted.insert(pos, x);
            proof {
                assert(res_m(x) == (all_hits.skip(j as int))[0]);
                assert(all_hits.skip(j as int).skip(1) =~= all_hits.skip(j as int + 1));
                assert(res_models(sorted@) =~= srt.subrange(0, pos as int) + seq![res_m(x)]
                    + srt.skip(pos as int));
                assert(res_models(sorted@) =~= sort_desc(all_hits.skip(j as int)));
            }
        }
        proof {
            assert(all_hits.skip(0) =~= all_hits);
        }
        sorted.truncate(k);
        proof {
            assert(res_models(sorted@) =~= take_at_most(sort_desc(all_hits), k as int));
        }
        Ok(sorted)
    }

    /// The walk order lists exactly the stored ids, as the entry walk
    /// shows.
    proof fn lemma_walk_lists_ids(self, es: Seq<(String, Vec<u8>)>)
        requires
            self.wf(),
            es.len() == table_entry_order(table_entries(self.table)).len(),
            forall|i: int|
                0 <= i < es.len() ==> (#[trigger] es[i]).0@ == table_entry_order(
                    table_entries(self.table),
                )[i] && table_entries(self.table).contains_key(es[i].0@),
            forall|i: int, j: int| 0 <= i < j < es.len() ==> (#[trigger] es[i]).0@ != (
            #[trigger] es[j]).0@,
            forall|k: Seq<char>|
                table_entries(self.table).contains_key(k) ==> exists|i: int|
                    0 <= i < es.len() && (#[trigger] es[i]).0@ == k,
        ensures
            lists_keys_once(self.id_order(), self.vectors().dom()),
    {
        let ord = self.id_order();
        assert forall|i: int| 0 <= i < ord.len() implies self.vectors().dom().contains(
            #[trigger] ord[i],
        ) by {
            assert(es[i].0@ == ord[i]);
        }
        assert forall|i: int, j: int| 0 <= i < j < ord.len() implies ord[i] != ord[j] by {
            assert(es[i].0@ == ord[i] && es[j].0@ == ord[j]);
        }
        assert forall|k: Seq<char>| #[trigger] self.vectors().dom().contains(
            k,
        ) implies ord.contains(k) by {
            let i = choose|i: int| 0 <= i < es.len() && (#[trigger] es[i]).0@ == k;
            assert(ord[i] == k);
        }
    }

    /// Remove every stored vector; the dimension is kept.
    #[verifier::loop_isolation(false)]
    pub fn clear(&mut self) -> (r: StorageResult<()>)
        requires
            old(self).wf(),
        ensures
            final(self).wf(),
            r is Ok,
            final(self).dimension() == old(self).dimension(),
            final(self).vectors() == no_vectors(),
    {
        let entries = self.table.entries();
        let n = entries.len();
        let mut i: usize = 0;
        while i < n
            invariant
                0 <= i <= n,
                n == entries@.len(),
                self.wf(),
                self.dim == old(self).dim,
                forall|k: Seq<char>|
                    #[trigger] self.vectors().contains_key(k) ==> exists|l: int|
                        i <= l < n && (#[trigger] entries@[l]).0@ == k,
            decreases n - i,
        {
            let ghost prev = self.vectors();
            let _removed = self.table.remove(&entries[i].0);
            proof {
                self.mirror@ = self.mirror@.remove(entries@[i as int].0@);
                assert(table_entries(self.table).dom() =~= self.mirror@.dom());
                assert forall|k: Seq<char>| #[trigger] self.vectors().contains_key(k) implies exists|l: int|
                    i + 1 <= l < n && (#[trigger] entries@[l]).0@ == k by {
                    assert(prev.contains_key(k));
                    let l = choose|l: int| i <= l < n && (#[trigger] entries@[l]).0@ == k;
                    assert(k != entries@[i as int].0@);
                    assert(i + 1 <= l < n && entries@[l].0@ == k);
                }
            }
            i = i + 1;
        }
        proof {
            assert forall|k: Seq<char>| !(#[trigger] self.vectors().contains_key(k)) by {
                if self.vectors().contains_key(k) {
                }
            }
            assert(self.vectors() =~= no_vectors());
        }
        Ok(())
    }

    /// How many vectors the index holds.
    pub fn size(&self) -> (r: usize)
        requires
            self.wf(),
        ensures
            self.vectors().dom().len() <= usize::MAX ==> r as int == self.vectors().dom().len(),
    {
        let l = self.table.len();
        if l > usize::MAX as u64 {
            usize::MAX
        } else {
            l as usize
        }
    }
}

} // verus!
