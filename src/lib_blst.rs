//! BLS12-381 through blstrs, seen through canonical compressed encodings.
//! Group elements are modelled by their discrete logarithms with respect to
//! the generators (for G_T, the pairing of the generators); scalars by their
//! little-endian values, kept canonical.
use vstd::prelude::*;
use crate::framing::le_nat;
use blstrs::{Compress, G1Affine, G1Projective, G2Affine, G2Projective, Gt, Scalar};
use ff::Field;
use group::prime::PrimeCurveAffine;
use group::{Curve, Group};
use subtle::ConstantTimeEq;

verus! {

/// The order of the BLS12-381 groups and of their scalar field.
pub open spec fn bls_order() -> nat {
    0x73eda753299d7d483339d80809a1d805 * 0x10000000000000000 * 0x10000000000000000
        + 0x53bda402fffe5bfeffffffff00000001
}

/// The order as an integer.
pub open spec fn q_ord() -> int {
    bls_order() as int
}

/// The discrete logarithm of the G1 point that `p` encodes.
pub uninterp spec fn g1_log(p: Seq<u8>) -> int;

/// The compressed encoding of `n` times the G1 generator.
pub uninterp spec fn g1_encode(n: int) -> [u8; 48];

/// The discrete logarithm of the G2 point that `p` encodes.
pub uninterp spec fn g2_log(p: Seq<u8>) -> int;

/// The compressed encoding of `n` times the G2 generator.
pub uninterp spec fn g2_encode(n: int) -> [u8; 96];

/// The discrete logarithm of the G_T element that `p` encodes, with respect
/// to the pairing of the two generators.
pub uninterp spec fn gt_log(p: Seq<u8>) -> int;

/// The compressed encoding of the G_T element whose logarithm is `n`.
pub uninterp spec fn gt_encode(n: int) -> [u8; 288];

/// The G1 point that blstrs' hash-to-curve maps `msg` to, with an empty
/// domain separation tag.
pub uninterp spec fn hash_to_g1_of(msg: Seq<u8>) -> [u8; 48];

/// Whether `p` is the canonical compressed encoding of a G1 point.
pub open spec fn is_g1(p: Seq<u8>) -> bool {
    0 <= g1_log(p) < q_ord() && p == g1_encode(g1_log(p))@
}

/// Whether `p` is the canonical compressed encoding of a G2 point.
pub open spec fn is_g2(p: Seq<u8>) -> bool {
    0 <= g2_log(p) < q_ord() && p == g2_encode(g2_log(p))@
}

/// Whether `p` is the compressed encoding of a G_T element; the identity has
/// none.
pub open spec fn is_gt(p: Seq<u8>) -> bool {
    0 < gt_log(p) < q_ord() && p == gt_encode(gt_log(p))@
}

/// Relies on ff's `Field::random` for blstrs scalars with the thread-local
/// generator, then `to_bytes_le`: a canonical scalar.
#[verifier::external_body]
pub(crate) fn bls_scalar_random() -> (r: [u8; 32])
    ensures
        le_nat(r@) < bls_order(),
{
    Scalar::random(rand::thread_rng()).to_bytes_le()
}

/// Relies on blstrs scalar multiplication of canonical scalars: the product
/// modulo the order, in canonical form.
#[verifier::external_body]
pub(crate) fn bls_scalar_mul(a: &[u8; 32], b: &[u8; 32]) -> (r: [u8; 32])
    requires
        le_nat(a@) < bls_order(),
        le_nat(b@) < bls_order(),
    ensures
        le_nat(r@) == (le_nat(a@) * le_nat(b@)) as int % q_ord(),
{
    let a = Scalar::from_bytes_le(a).unwrap();
    let b = Scalar::from_bytes_le(b).unwrap();
    (a * b).to_bytes_le()
}

/// Relies on ff's `Field::invert` for blstrs scalars: `None` exactly for
/// zero, else the inverse modulo the order, in canonical form.
#[verifier::external_body]
pub(crate) fn bls_scalar_invert(a: &[u8; 32]) -> (r: Option<[u8; 32]>)
    requires
        le_nat(a@) < bls_order(),
    ensures
        r is Some <==> le_nat(a@) != 0,
        r matches Some(i) ==> le_nat(i@) < bls_order() && (le_nat(i@) * le_nat(a@)) as int % q_ord() == 1,
{
    let a = Scalar::from_bytes_le(a).unwrap();
    let inv: Option<Scalar> = a.invert().into();
    match inv {
        Some(i) => Some(i.to_bytes_le()),
        None => None,
    }
}

/// Relies on blstrs: the G2 generator times a canonical scalar, compressed.
#[verifier::external_body]
pub(crate) fn g2_mul_generator(s: &[u8; 32]) -> (r: [u8; 96])
    requires
        le_nat(s@) < bls_order(),
    ensures
        r == g2_encode(le_nat(s@) as int),
        g2_log(r@) == le_nat(s@),
{
    let s = Scalar::from_bytes_le(s).unwrap();
    (G2Affine::generator() * s).to_affine().to_compressed()
}

/// Relies on blstrs: a G2 point times a canonical scalar; `None` when `p`
/// does not decompress.
#[verifier::external_body]
pub(crate) fn g2_mul(p: &[u8; 96], s: &[u8; 32]) -> (r: Option<[u8; 96]>)
    requires
        le_nat(s@) < bls_order(),
    ensures
        r is Some <==> is_g2(p@),
        r matches Some(x) ==> x == g2_encode((le_nat(s@) * g2_log(p@)) % q_ord()),
        r matches Some(x) ==> g2_log(x@) == (le_nat(s@) * g2_log(p@)) % q_ord(),
{
    let p: G2Affine = Option::from(G2Affine::from_compressed(p))?;
    let s = Scalar::from_bytes_le(s).unwrap();
    Some((G2Projective::from(p) * s).to_compressed())
}

/// Relies on blstrs: a G1 point times a canonical scalar; `None` when `p`
/// does not decompress.
#[verifier::external_body]
pub(crate) fn g1_mul(p: &[u8; 48], s: &[u8; 32]) -> (r: Option<[u8; 48]>)
    requires
        le_nat(s@) < bls_order(),
    ensures
        r is Some <==> is_g1(p@),
        r matches Some(x) ==> x == g1_encode((le_nat(s@) * g1_log(p@)) % q_ord()),
        r matches Some(x) ==> g1_log(x@) == (le_nat(s@) * g1_log(p@)) % q_ord(),
{
    let p: G1Affine = Option::from(G1Affine::from_compressed(p))?;
    let s = Scalar::from_bytes_le(s).unwrap();
    Some((G1Projective::from(p) * s).to_compressed())
}

/// Relies on blstrs' `G1Projective::hash_to_curve` with an empty domain
/// separation tag: a point that depends on `msg` alone.
#[verifier::external_body]
pub(crate) fn hash_to_g1(msg: &[u8]) -> (r: [u8; 48])
    ensures
        r == hash_to_g1_of(msg@),
        0 <= g1_log(r@) < q_ord(),
        r == g1_encode(g1_log(r@)),
{
    G1Projective::hash_to_curve(msg, &[], &[]).to_compressed()
}

/// Relies on blstrs' `pairing` and `Group::is_identity`: whether the pairing
/// of two valid points is the identity; `None` when one does not decompress.
#[verifier::external_body]
pub(crate) fn pairing_is_identity(p: &[u8; 48], q: &[u8; 96]) -> (r: Option<bool>)
    ensures
        r is Some <==> (is_g1(p@) && is_g2(q@)),
        r matches Some(b) ==> b == ((g1_log(p@) * g2_log(q@)) % q_ord() == 0),
{
    let p: G1Affine = Option::from(G1Affine::from_compressed(p))?;
    let q: G2Affine = Option::from(G2Affine::from_compressed(q))?;
    Some(bool::from(blstrs::pairing(&p, &q).is_identity()))
}

/// Relies on blstrs' `pairing` and G_T compression, which panics on the
/// identity: the compressed pairing of two valid points.
#[verifier::external_body]
pub(crate) fn pairing_compressed(p: &[u8; 48], q: &[u8; 96]) -> (r: [u8; 288])
    requires
        is_g1(p@),
        is_g2(q@),
        (g1_log(p@) * g2_log(q@)) % q_ord() != 0,
    ensures
        r == gt_encode((g1_log(p@) * g2_log(q@)) % q_ord()),
        gt_log(r@) == (g1_log(p@) * g2_log(q@)) % q_ord(),
{
    let p = G1Affine::from_compressed(p).unwrap();
    let q = G2Affine::from_compressed(q).unwrap();
    let mut out: Vec<u8> = Vec::with_capacity(288);
    blstrs::pairing(&p, &q).write_compressed(&mut out).unwrap();
    out.try_into().unwrap()
}

/// Relies on blstrs' `G2Affine::from_compressed`, which accepts exactly the
/// canonical compressed encodings of points of the subgroup.
#[verifier::external_body]
pub(crate) fn g2_decompresses(p: &[u8; 96]) -> (r: bool)
    ensures
        r == is_g2(p@),
{
    bool::from(G2Affine::from_compressed(p).is_some())
}

/// Relies on blstrs' G_T decompression (`Compress::read_compressed`), which
/// accepts exactly the compressed encodings of group elements.
#[verifier::external_body]
pub(crate) fn gt_decompresses(c: &[u8; 288]) -> (r: bool)
    ensures
        r == is_gt(c@),
{
    Gt::read_compressed(&c[..]).is_ok()
}

/// Relies on blstrs: a G_T element times a canonical scalar, compressed
/// again; the product must not be the identity, which has no compressed
/// form.
#[verifier::external_body]
pub(crate) fn gt_mul(c: &[u8; 288], s: &[u8; 32]) -> (r: [u8; 288])
    requires
        is_gt(c@),
        le_nat(s@) < bls_order(),
        (le_nat(s@) * gt_log(c@)) % q_ord() != 0,
    ensures
        r == gt_encode((le_nat(s@) * gt_log(c@)) % q_ord()),
        gt_log(r@) == (le_nat(s@) * gt_log(c@)) % q_ord(),
{
    let g = Gt::read_compressed(&c[..]).unwrap();
    let s = Scalar::from_bytes_le(s).unwrap();
    let mut out: Vec<u8> = Vec::with_capacity(288);
    (g * s).write_compressed(&mut out).unwrap();
    out.try_into().unwrap()
}

/// Relies on blstrs' `pairing` and G_T compression, which panics on the
/// identity: the compressed pairing of `p` with the G2 generator.
#[verifier::external_body]
pub(crate) fn pairing_with_generator(p: &[u8; 48]) -> (r: [u8; 288])
    requires
        is_g1(p@),
        g1_log(p@) != 0,
    ensures
        r == gt_encode(g1_log(p@)),
        gt_log(r@) == g1_log(p@),
{
    let p = G1Affine::from_compressed(p).unwrap();
    let mut out: Vec<u8> = Vec::with_capacity(288);
    blstrs::pairing(&p, &G2Affine::generator()).write_compressed(&mut out).unwrap();
    out.try_into().unwrap()
}

/// Relies on blstrs' `Group::is_identity` for G1: whether a valid point is
/// the identity; `None` when `p` does not decompress.
#[verifier::external_body]
pub(crate) fn g1_is_identity(p: &[u8; 48]) -> (r: Option<bool>)
    ensures
        r is Some <==> is_g1(p@),
        r matches Some(b) ==> b == (g1_log(p@) == 0),
{
    let p: G1Affine = Option::from(G1Affine::from_compressed(p))?;
    Some(bool::from(p.is_identity()))
}

/// A nonzero residue times an invertible one is nonzero.
pub proof fn lemma_mul_nonzero(a: int, b: int, b_inv: int, m: int)
    requires
        m > 0,
        a % m != 0,
        (b_inv * b) % m == 1,
    ensures
        (b * a) % m != 0,
{
    if (b * a) % m == 0 {
        crate::ristretto::lemma_mul_inverse(a, b, b_inv, m);
        assert(a * b == b * a) by (nonlinear_arith);
        vstd::arithmetic::div_mod::lemma_mul_mod_noop_left(b * a, b_inv, m);
        vstd::arithmetic::div_mod::lemma_small_mod(0, m as nat);
    }
}

} // verus!
