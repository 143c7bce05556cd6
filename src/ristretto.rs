//! The Ristretto group of curve25519-dalek, seen through canonical 32-byte
//! encodings. A point is modelled by its discrete logarithm with respect to
//! the basepoint, a scalar by its value modulo the group order.
use vstd::prelude::*;
use crate::framing::le_nat;
use curve25519_dalek::ristretto::{CompressedRistretto, RistrettoPoint};
use curve25519_dalek::scalar::Scalar;
use sha2::Sha512;
use subtle::ConstantTimeEq;

verus! {

/// The order of the Ristretto group.
pub open spec fn ristretto_order() -> nat {
    0x10000000000000000 * 0x10000000000000000 * 0x10000000000000000 * 0x1000000000000000
        + 27742317777372353535851937790883648493
}

/// The discrete logarithm, with respect to the Ristretto basepoint, of the
/// point that `p` encodes.
pub uninterp spec fn ristretto_log(p: Seq<u8>) -> int;

/// The canonical compressed encoding of `n` times the Ristretto basepoint.
pub uninterp spec fn ristretto_encode(n: int) -> Seq<u8>;

/// Whether `p` is the canonical encoding of a Ristretto point.
pub open spec fn is_point(p: Seq<u8>) -> bool {
    0 <= ristretto_log(p) < ristretto_order() && p == ristretto_encode(ristretto_log(p))
}

/// The encoding of the point whose logarithm is `n`.
pub open spec fn point_of(n: int) -> Seq<u8> {
    ristretto_encode(n % ristretto_order() as int)
}

/// The value of a scalar read with `Scalar::from_bytes_mod_order`.
pub open spec fn scalar_of(b: Seq<u8>) -> int {
    le_nat(b) as int % ristretto_order() as int
}

/// The point that `hash_from_bytes::<Sha512>` maps `b` to.
pub uninterp spec fn ristretto_hash_of(b: Seq<u8>) -> Seq<u8>;

/// Relies on curve25519-dalek's `RistrettoPoint::random` with the operating
/// system's generator, then `compress`: the canonical encoding of a point.
#[verifier::external_body]
pub(crate) fn random_point() -> (r: [u8; 32])
    ensures
        0 <= ristretto_log(r@) < ristretto_order(),
        r@ == ristretto_encode(ristretto_log(r@)),
{
    RistrettoPoint::random(&mut rand::rngs::OsRng).compress().to_bytes()
}

/// Relies on curve25519-dalek's `Scalar::random` with the operating system's
/// generator, then `to_bytes`: a canonical scalar.
#[verifier::external_body]
pub(crate) fn random_scalar() -> (r: [u8; 32])
    ensures
        le_nat(r@) < ristretto_order(),
{
    Scalar::random(&mut rand::rngs::OsRng).to_bytes()
}

/// Relies on curve25519-dalek's `RistrettoPoint::mul_base`: `s` times the
/// basepoint.
#[verifier::external_body]
pub(crate) fn mul_base(s: &[u8; 32]) -> (r: [u8; 32])
    ensures
        ristretto_log(r@) == scalar_of(s@),
        r@ == ristretto_encode(scalar_of(s@)),
{
    RistrettoPoint::mul_base(&Scalar::from_bytes_mod_order(*s)).compress().to_bytes()
}

/// Relies on curve25519-dalek's `CompressedRistretto::decompress`, which
/// accepts exactly the canonical encodings of points.
#[verifier::external_body]
pub(crate) fn decompresses(p: &[u8; 32]) -> (r: bool)
    ensures
        r == (0 <= ristretto_log(p@) < ristretto_order() && p@ == ristretto_encode(
            ristretto_log(p@),
        )),
{
    CompressedRistretto(*p).decompress().is_some()
}

/// Relies on curve25519-dalek's scalar multiplication of a point; `None`
/// when `p` does not decompress.
#[verifier::external_body]
pub(crate) fn point_mul(s: &[u8; 32], p: &[u8; 32]) -> (r: Option<[u8; 32]>)
    ensures
        r is Some <==> (0 <= ristretto_log(p@) < ristretto_order() && p@ == ristretto_encode(
            ristretto_log(p@),
        )),
        r matches Some(q) ==> ristretto_log(q@) == (scalar_of(s@) * ristretto_log(p@))
            % ristretto_order() as int,
        r matches Some(q) ==> q@ == ristretto_encode(
            (scalar_of(s@) * ristretto_log(p@)) % ristretto_order() as int,
        ),
{
    let p = CompressedRistretto(*p).decompress()?;
    Some((Scalar::from_bytes_mod_order(*s) * p).compress().to_bytes())
}

/// Relies on curve25519-dalek's point addition; `None` when an operand does
/// not decompress.
#[verifier::external_body]
pub(crate) fn point_add(a: &[u8; 32], b: &[u8; 32]) -> (r: Option<[u8; 32]>)
    ensures
        r is Some <==> (is_point(a@) && is_point(b@)),
        r matches Some(q) ==> ristretto_log(q@) == (ristretto_log(a@) + ristretto_log(b@))
            % ristretto_order() as int,
        r matches Some(q) ==> q@ == ristretto_encode(
            (ristretto_log(a@) + ristretto_log(b@)) % ristretto_order() as int,
        ),
{
    let a = CompressedRistretto(*a).decompress()?;
    let b = CompressedRistretto(*b).decompress()?;
    Some((a + b).compress().to_bytes())
}

/// Relies on curve25519-dalek's point subtraction; `None` when an operand
/// does not decompress.
#[verifier::external_body]
pub(crate) fn point_sub(a: &[u8; 32], b: &[u8; 32]) -> (r: Option<[u8; 32]>)
    ensures
        r is Some <==> (is_point(a@) && is_point(b@)),
        r matches Some(q) ==> ristretto_log(q@) == (ristretto_log(a@) - ristretto_log(b@))
            % ristretto_order() as int,
        r matches Some(q) ==> q@ == ristretto_encode(
            (ristretto_log(a@) - ristretto_log(b@)) % ristretto_order() as int,
        ),
{
    let a = CompressedRistretto(*a).decompress()?;
    let b = CompressedRistretto(*b).decompress()?;
    Some((a - b).compress().to_bytes())
}

/// Relies on curve25519-dalek's `RistrettoPoint::hash_from_bytes::<Sha512>`:
/// a point that depends on `b` alone.
#[verifier::external_body]
pub(crate) fn hash_to_point(b: &[u8; 64]) -> (r: [u8; 32])
    ensures
        r@ == ristretto_hash_of(b@),
        0 <= ristretto_log(r@) < ristretto_order(),
        r@ == ristretto_encode(ristretto_log(r@)),
{
    RistrettoPoint::hash_from_bytes::<Sha512>(b).compress().to_bytes()
}

/// Relies on curve25519-dalek's scalar multiplication: the product modulo
/// the group order, in canonical form.
#[verifier::external_body]
pub(crate) fn scalar_mul(a: &[u8; 32], b: &[u8; 32]) -> (r: [u8; 32])
    ensures
        le_nat(r@) == (scalar_of(a@) * scalar_of(b@)) % ristretto_order() as int,
{
    (Scalar::from_bytes_mod_order(*a) * Scalar::from_bytes_mod_order(*b)).to_bytes()
}

/// Relies on curve25519-dalek's `Scalar::invert`, which asks for a nonzero
/// scalar: the inverse modulo the group order, in canonical form.
#[verifier::external_body]
pub(crate) fn scalar_invert(a: &[u8; 32]) -> (r: [u8; 32])
    requires
        scalar_of(a@) != 0,
    ensures
        le_nat(r@) < ristretto_order(),
        (le_nat(r@) * scalar_of(a@)) % ristretto_order() as int == 1,
{
    Scalar::from_bytes_mod_order(*a).invert().to_bytes()
}

/// Relies on subtle's `ConstantTimeEq` for curve25519-dalek scalars: whether
/// the value is zero.
#[verifier::external_body]
pub(crate) fn scalar_is_zero(a: &[u8; 32]) -> (r: bool)
    ensures
        r == (scalar_of(a@) == 0),
{
    bool::from(Scalar::from_bytes_mod_order(*a).ct_eq(&Scalar::ZERO))
}

} // verus!

verus! {

/// Whether `y` is the inverse of `x` modulo the group order.
pub open spec fn is_scalar_inverse(y: int, x: int) -> bool {
    0 <= y < ristretto_order() && (y * x) % ristretto_order() as int == 1
}

/// The inverse of `x` modulo the group order.
pub open spec fn scalar_inverse(x: int) -> int {
    choose|y: int| is_scalar_inverse(y, x)
}

/// Multiplying by `x` and then by an inverse of `x` is the identity modulo `m`.
pub proof fn lemma_mul_inverse(a: int, x: int, xi: int, m: int)
    requires
        m > 0,
        (xi * x) % m == 1,
    ensures
        ((a * x) % m * xi) % m == a % m,
        (xi * ((x * a) % m)) % m == a % m,
{
    vstd::arithmetic::div_mod::lemma_mul_mod_noop_left(a * x, xi, m);
    assert((a * x) * xi == a * (xi * x)) by (nonlinear_arith);
    vstd::arithmetic::div_mod::lemma_mul_mod_noop_right(a, xi * x, m);
    vstd::arithmetic::div_mod::lemma_mul_mod_noop_right(xi, x * a, m);
    assert(xi * (x * a) == a * (xi * x)) by (nonlinear_arith);
}

/// An inverse modulo `m` is unique among the residues.
pub proof fn lemma_inverse_unique(a: int, b: int, x: int, m: int)
    requires
        m > 0,
        0 <= a < m,
        0 <= b < m,
        (a * x) % m == 1,
        (b * x) % m == 1,
    ensures
        a == b,
{
    lemma_mul_inverse(a, x, b, m);
    assert(b * x == x * b) by (nonlinear_arith);
    lemma_mul_inverse(b, x, a, m);
    assert((a * x) * b == (b * x) * a) by (nonlinear_arith);
    vstd::arithmetic::div_mod::lemma_small_mod(a as nat, m as nat);
    vstd::arithmetic::div_mod::lemma_small_mod(b as nat, m as nat);
}

/// The inverse that `scalar_invert` returns is `scalar_inverse`.
pub proof fn lemma_scalar_inverse(inv: int, x: int)
    requires
        0 <= inv < ristretto_order(),
        (inv * x) % ristretto_order() as int == 1,
    ensures
        scalar_inverse(x) == inv,
{
    let m = ristretto_order() as int;
    assert(is_scalar_inverse(inv, x));
    let y = scalar_inverse(x);
    assert(is_scalar_inverse(y, x));
    lemma_inverse_unique(y, inv, x, m);
}

/// Two canonical encodings with the same logarithm are the same bytes.
pub proof fn lemma_point_eq(a: Seq<u8>, b: Seq<u8>)
    requires
        is_point(a),
        is_point(b),
    ensures
        (a == b) <==> (ristretto_log(a) == ristretto_log(b)),
{
}

/// Inverts a scalar, or `None` when it is zero.
pub(crate) fn checked_invert(a: &[u8; 32]) -> (r: Option<[u8; 32]>)
    ensures
        r is Some <==> scalar_of(a@) != 0,
        r matches Some(i) ==> le_nat(i@) == scalar_inverse(scalar_of(a@)),
        r matches Some(i) ==> scalar_of(i@) == scalar_inverse(scalar_of(a@)),
        r matches Some(i) ==> is_scalar_inverse(scalar_of(i@), scalar_of(a@)),
{
    if scalar_is_zero(a) {
        return None;
    }
    let i = scalar_invert(a);
    proof {
        lemma_scalar_inverse(le_nat(i@) as int, scalar_of(a@));
        vstd::arithmetic::div_mod::lemma_small_mod(le_nat(i@), ristretto_order());
    }
    Some(i)
}

} // verus!
