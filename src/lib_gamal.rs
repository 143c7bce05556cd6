//! ElGamal and ElGamal-based proxy re-encryption over Ristretto, in plain
//! form (a point as the message) and in hybrid form (a random point whose
//! hash keys AES-256-GCM).
use vstd::prelude::*;
use crate::framing::le_nat;
use crate::lib_common::{
    aead_decrypt, aead_max_plaintext, aead_nonce, aead_seal, aes_gcm_seal_of, sha256, sha256_of,
};
use crate::ristretto::{
    checked_invert, is_point, lemma_mul_inverse, mul_base, point_add, point_mul, point_sub,
    point_of, random_point, random_scalar, ristretto_encode, ristretto_log, ristretto_order,
    scalar_inverse,
    scalar_of,
};

verus! {

/// A compressed Ristretto point.
pub type Point = [u8; 32];

/// A pair of points.
pub type Ciphertext = (Point, Point);

/// A hybrid ciphertext: the ElGamal pair that carries the key point, the
/// AES-256-GCM body and its nonce.
pub type HybridCiphertext = (Ciphertext, Vec<u8>, [u8; 12]);

/// The group order as an integer.
pub open spec fn ell() -> int {
    ristretto_order() as int
}

/// Whether both components of `ct` are canonical points.
pub open spec fn ct_valid(ct: Ciphertext) -> bool {
    is_point(ct.0@) && is_point(ct.1@)
}

/// The logarithms of the two components of `ct`.
pub open spec fn ct_logs(ct: Ciphertext) -> (int, int) {
    (ristretto_log(ct.0@), ristretto_log(ct.1@))
}

/// Proxy re-encryption of the point `m` under the key `pk` with randomness
/// `r`, on logarithms: `(r·g + m, r·pk)`.
pub open spec fn pre_enc_logs(pk: int, m: int, r: int) -> (int, int) {
    ((r + m) % ell(), (r * pk) % ell())
}

/// Re-encryption under the re-key `rk`, on logarithms: `(c1, rk·c2)`.
pub open spec fn pre_re_enc_logs(c: (int, int), rk: int) -> (int, int) {
    (c.0, (rk * c.1) % ell())
}

/// Proxy decryption with the inverse `sk_inv` of the secret key, on
/// logarithms: `c1 - sk⁻¹·c2`.
pub open spec fn pre_dec_logs(sk_inv: int, c: (int, int)) -> int {
    (c.0 - sk_inv * c.1) % ell()
}

/// ElGamal encryption of `m` under `pk` with randomness `r`, on logarithms:
/// `(r·g, r·pk + m)`.
pub open spec fn elgamal_enc_logs(pk: int, m: int, r: int) -> (int, int) {
    (r % ell(), (r * pk + m) % ell())
}

/// ElGamal decryption with the secret key `sk`, on logarithms: `v - sk·u`.
pub open spec fn elgamal_dec_logs(sk: int, c: (int, int)) -> int {
    (c.1 - sk * c.0) % ell()
}

/// Decrypting, with the target key `y`, a proxy ciphertext made under `x`
/// and re-encrypted with the re-key `y·x⁻¹` gives the message back.
pub proof fn lemma_pre_round_trip(x: int, y: int, x_inv: int, y_inv: int, m: int, r: int)
    requires
        0 <= m < ell(),
        (x_inv * x) % ell() == 1,
        (y_inv * y) % ell() == 1,
    ensures
        pre_dec_logs(y_inv, pre_re_enc_logs(pre_enc_logs(x, m, r), (y * x_inv) % ell())) == m,
{
    let l = ell();
    let c2 = (r * x) % l;
    let k = (y * x_inv) % l;
    // k·c2 = y·r, since x_inv·x = 1
    vstd::arithmetic::div_mod::lemma_mul_mod_noop_general(y * x_inv, r * x, l);
    assert((y * x_inv) * (r * x) == ((y * r) * x) * x_inv) by (nonlinear_arith);
    lemma_mul_inverse(y * r, x, x_inv, l);
    vstd::arithmetic::div_mod::lemma_mul_mod_noop_left((y * r) * x, x_inv, l);
    assert((k * c2) % l == (y * r) % l);
    // y_inv·(y·r) = r
    lemma_mul_inverse(r, y, y_inv, l);
    assert(y * r == r * y) by (nonlinear_arith);
    vstd::arithmetic::div_mod::lemma_mul_mod_noop_right(y_inv, r * y, l);
    assert((y_inv * ((k * c2) % l)) % l == r % l);
    // (r + m) - r = m
    vstd::arithmetic::div_mod::lemma_mul_mod_noop_right(y_inv, k * c2, l);
    let a = (r + m) % l;
    let b = y_inv * ((k * c2) % l);
    vstd::arithmetic::div_mod::lemma_sub_mod_noop(a, b, l);
    vstd::arithmetic::div_mod::lemma_mod_twice(r + m, l);
    vstd::arithmetic::div_mod::lemma_sub_mod_noop(r + m, r, l);
    vstd::arithmetic::div_mod::lemma_small_mod(m as nat, l as nat);
}

/// The byte size of a hybrid ciphertext: two points, the body and the nonce.
pub fn size_of_el_gamal_ct(ct: (Ciphertext, Vec<u8>, [u8; 12])) -> (cost: usize)
    requires
        ct.1@.len() + 76 <= usize::MAX,
    ensures
        cost == 76 + ct.1@.len(),
{
    let ((_u, _v), sym_ct, _nonce) = ct;
    32 + 32 + sym_ct.len() + 12
}

/// Proxy re-encryption of the point `m` under `pk` with the randomness `r`:
/// `(r·g + m, r·pk)`. `None` when `pk` or `m` is not a canonical point.
pub fn pre_elgamal_enc_with(pk: &Point, m: &Point, r: &[u8; 32]) -> (ct: Option<Ciphertext>)
    ensures
        ct is Some <==> is_point(pk@) && is_point(m@),
        ct matches Some(c) ==> ct_valid(c) && ct_logs(c) == pre_enc_logs(
            ristretto_log(pk@),
            ristretto_log(m@),
            scalar_of(r@),
        ),
{
    let rg = mul_base(r);
    let c1 = point_add(&rg, m)?;
    let c2 = point_mul(r, pk)?;
    Some((c1, c2))
}

/// Proxy re-encryption of the point `m` under `pk` with fresh randomness.
pub fn pre_elgamal_enc(pk: &Point, m: &Point) -> (ct: Option<Ciphertext>)
    ensures
        ct is Some <==> is_point(pk@) && is_point(m@),
        ct matches Some(c) ==> ct_valid(c) && exists|r: int|
            ct_logs(c) == #[trigger] pre_enc_logs(ristretto_log(pk@), ristretto_log(m@), r),
{
    let r = random_scalar();
    let ct = pre_elgamal_enc_with(pk, m, &r);
    proof {
        if ct is Some {
            assert(ct_logs(ct->0) == pre_enc_logs(ristretto_log(pk@), ristretto_log(m@), scalar_of(r@)));
        }
    }
    ct
}

/// Re-encrypts `ct` with the re-key `rk`: `(c1, rk·c2)`. `None` when the
/// second component is not a canonical point.
pub fn pre_re_enc(ct: &Ciphertext, rk: &[u8; 32]) -> (r: Option<Ciphertext>)
    ensures
        r is Some <==> is_point(ct.1@),
        r matches Some(c) ==> c.0 == ct.0 && is_point(c.1@) && ristretto_log(c.1@) == (
        scalar_of(rk@) * ristretto_log(ct.1@)) % ell(),
{
    let c2 = point_mul(rk, &ct.1)?;
    Some((ct.0, c2))
}

/// Proxy decryption with the secret key `sk`: `c1 - sk⁻¹·c2`. `None` when
/// `sk` is zero or a component is not a canonical point.
pub fn pre_elgamal_dec(sk: &[u8; 32], ct: &Ciphertext) -> (m: Option<Point>)
    ensures
        m is Some <==> scalar_of(sk@) != 0 && ct_valid(*ct),
        m matches Some(p) ==> is_point(p@) && ristretto_log(p@) == pre_dec_logs(
            scalar_inverse(scalar_of(sk@)),
            ct_logs(*ct),
        ),
{
    let inv = checked_invert(sk)?;
    let t = point_mul(&inv, &ct.1)?;
    if !is_canonical(&ct.0) {
        return None;
    }
    let p = point_sub(&ct.0, &t)?;
    proof {
        vstd::arithmetic::div_mod::lemma_sub_mod_noop_right(
            ristretto_log(ct.0@),
            scalar_of(inv@) * ristretto_log(ct.1@),
            ell(),
        );
    }
    Some(p)
}

/// Whether `p` is a canonical point.
fn is_canonical(p: &Point) -> (r: bool)
    ensures
        r == is_point(p@),
{
    crate::ristretto::decompresses(p)
}

/// A fresh ElGamal key pair `(x, x·g)`.
pub fn elgamal_keygen() -> (keys: ([u8; 32], Point))
    ensures
        le_nat(keys.0@) < ell(),
        is_point(keys.1@),
        ristretto_log(keys.1@) == scalar_of(keys.0@),
{
    let x = random_scalar();
    let h = mul_base(&x);
    (x, h)
}

/// ElGamal encryption of the point `m` under `pk` with randomness `r`:
/// `(r·g, r·pk + m)`.
pub fn elgamal_enc_with(pk: &Point, m: &Point, r: &[u8; 32]) -> (ct: Option<Ciphertext>)
    ensures
        ct is Some <==> is_point(pk@) && is_point(m@),
        ct matches Some(c) ==> ct_valid(c) && ct_logs(c) == elgamal_enc_logs(
            ristretto_log(pk@),
            ristretto_log(m@),
            scalar_of(r@),
        ),
{
    let c1 = mul_base(r);
    let rpk = point_mul(r, pk)?;
    let c2 = point_add(&rpk, m)?;
    proof {
        let l = ell();
        vstd::arithmetic::div_mod::lemma_small_mod(scalar_of(r@) as nat, l as nat);
        vstd::arithmetic::div_mod::lemma_add_mod_noop(
            scalar_of(r@) * ristretto_log(pk@),
            ristretto_log(m@),
            l,
        );
        vstd::arithmetic::div_mod::lemma_mod_twice(scalar_of(r@) * ristretto_log(pk@), l);
        vstd::arithmetic::div_mod::lemma_small_mod(ristretto_log(m@) as nat, l as nat);
    }
    Some((c1, c2))
}

/// ElGamal encryption of the point `m` under `pk` with fresh randomness.
pub fn elgamal_enc(pk: &Point, m: &Point) -> (ct: Option<Ciphertext>)
    ensures
        ct is Some <==> is_point(pk@) && is_point(m@),
        ct matches Some(c) ==> ct_valid(c) && exists|r: int|
            ct_logs(c) == #[trigger] elgamal_enc_logs(ristretto_log(pk@), ristretto_log(m@), r),
{
    let r = random_scalar();
    elgamal_enc_with(pk, m, &r)
}

/// ElGamal decryption with the secret key `sk`: `v - sk·u`. `None` when a
/// component is not a canonical point.
pub fn elgamal_dec(sk: &[u8; 32], ct: &Ciphertext) -> (m: Option<Point>)
    ensures
        m is Some <==> ct_valid(*ct),
        m matches Some(p) ==> is_point(p@) && ristretto_log(p@) == elgamal_dec_logs(
            scalar_of(sk@),
            ct_logs(*ct),
        ),
{
    let t = point_mul(sk, &ct.0)?;
    if !is_canonical(&ct.1) {
        return None;
    }
    let p = point_sub(&ct.1, &t)?;
    proof {
        vstd::arithmetic::div_mod::lemma_sub_mod_noop_right(
            ristretto_log(ct.1@),
            scalar_of(sk@) * ristretto_log(ct.0@),
            ell(),
        );
    }
    Some(p)
}

/// Whether `body` is the authentic encryption of `pt` under the key derived
/// from the point `p` and the nonce `nonce`.
pub open spec fn opens_to(p: Seq<u8>, nonce: Seq<u8>, body: Seq<u8>, pt: Seq<u8>) -> bool {
    pt.len() <= aead_max_plaintext() && body == aes_gcm_seal_of(sha256_of(p)@, nonce, pt)
}

/// What a hybrid decryption returns once the key point `p` is known: the
/// plaintext that `body` authenticates, if any.
pub open spec fn hybrid_opens(p: Seq<u8>, nonce: Seq<u8>, body: Seq<u8>, r: Option<Vec<u8>>) -> bool {
    match r {
        Some(pt) => opens_to(p, nonce, body, pt@) && forall|q: Seq<u8>|
            #[trigger] opens_to(p, nonce, body, q) ==> q == pt@,
        None => forall|q: Seq<u8>| !#[trigger] opens_to(p, nonce, body, q),
    }
}

/// What a hybrid proxy encryption of `m` under `pk` may return: a proxy
/// ciphertext of some point, whose hash keys the body, 16 bytes longer than
/// `m`.
pub open spec fn pre_enc_result(pk: Seq<u8>, m: Seq<u8>, h: HybridCiphertext) -> bool {
    ct_valid(h.0) && h.1@.len() == m.len() + 16 && exists|p: Seq<u8>, rr: int|
        is_point(p) && ct_logs(h.0) == #[trigger] pre_enc_logs(ristretto_log(pk), ristretto_log(p), rr)
            && #[trigger] opens_to(p, h.2@, h.1@, m)
}

/// What a hybrid ElGamal encryption of `m` under `pk` may return: an
/// ElGamal ciphertext of some point, whose hash keys the body.
pub open spec fn enc_result(pk: Seq<u8>, m: Seq<u8>, h: HybridCiphertext) -> bool {
    ct_valid(h.0) && h.1@.len() == m.len() + 16 && exists|p: Seq<u8>, rr: int|
        is_point(p) && ct_logs(h.0) == #[trigger] elgamal_enc_logs(ristretto_log(pk), ristretto_log(p), rr)
            && #[trigger] opens_to(p, h.2@, h.1@, m)
}

/// AES-256-GCM under the SHA-256 hash of the point `p`, with a fresh nonce.
fn seal_under_point(p: &Point, m: &Vec<u8>) -> (r: Option<(Vec<u8>, [u8; 12])>)
    ensures
        r is Some <==> m@.len() <= aead_max_plaintext(),
        r matches Some((body, nonce)) ==> opens_to(p@, nonce@, body@, m@) && body@.len() == m@.len() + 16,
{
    let k = sha256(p);
    let nonce = aead_nonce();
    let body = aead_seal(&k, &nonce, m.as_slice())?;
    Some((body, nonce))
}

/// Opens `body` under the key derived from the point `p`.
fn open_under_point(p: &Point, body: &Vec<u8>, nonce: &[u8; 12]) -> (r: Option<Vec<u8>>)
    ensures
        hybrid_opens(p@, nonce@, body@, r),
{
    let k = sha256(p);
    aead_decrypt(&k, nonce, body.as_slice())
}

/// Hybrid proxy re-encryption of `m` under `pk`: a fresh random point is
/// proxy-encrypted, and its hash keys AES-256-GCM over `m`. `None` when `pk`
/// is not a canonical point or `m` is too long.
pub fn pre_enc(pk: &Point, m: &Vec<u8>) -> (r: Option<HybridCiphertext>)
    ensures
        r is Some <==> is_point(pk@) && m@.len() <= aead_max_plaintext(),
        r matches Some(h) ==> pre_enc_result(pk@, m@, h),
{
    let p = random_point();
    let ct = pre_elgamal_enc(pk, &p)?;
    let (body, nonce) = seal_under_point(&p, m)?;
    proof {
        let rr = choose|rr: int|
            ct_logs(ct) == #[trigger] pre_enc_logs(ristretto_log(pk@), ristretto_log(p@), rr);
        let h = (ct, body, nonce);
        assert(opens_to(p@, h.2@, h.1@, m@));
        assert(ct_logs(h.0) == pre_enc_logs(ristretto_log(pk@), ristretto_log(p@), rr));
        assert(pre_enc_result(pk@, m@, h));
    }
    Some((ct, body, nonce))
}

/// Hybrid proxy decryption with the secret key `sk`: recovers the key point,
/// then opens the body. `None` when `sk` is zero, a point is malformed or
/// the body does not authenticate.
pub fn pre_dec(sk: &[u8; 32], ct: &(Ciphertext, Vec<u8>), nonce: &[u8; 12]) -> (r: Option<Vec<u8>>)
    ensures
        !(scalar_of(sk@) != 0 && ct_valid(ct.0)) ==> r is None,
        scalar_of(sk@) != 0 && ct_valid(ct.0) ==> hybrid_opens(
            point_of(pre_dec_logs(scalar_inverse(scalar_of(sk@)), ct_logs(ct.0))),
            nonce@,
            ct.1@,
            r,
        ),
{
    let p = pre_elgamal_dec(sk, &ct.0)?;
    proof {
        let c = ct_logs(ct.0);
        vstd::arithmetic::div_mod::lemma_mod_twice(c.0 - scalar_inverse(scalar_of(sk@)) * c.1, ell());
    }
    open_under_point(&p, &ct.1, nonce)
}

/// Hybrid ElGamal encryption of `m` under `pk`. `None` when `pk` is not a
/// canonical point or `m` is too long.
pub fn encrypt(pk: &Point, m: &Vec<u8>) -> (r: Option<HybridCiphertext>)
    ensures
        r is Some <==> is_point(pk@) && m@.len() <= aead_max_plaintext(),
        r matches Some(h) ==> enc_result(pk@, m@, h),
{
    let p = random_point();
    let ct = elgamal_enc(pk, &p)?;
    let (body, nonce) = seal_under_point(&p, m)?;
    proof {
        let rr = choose|rr: int|
            ct_logs(ct) == #[trigger] elgamal_enc_logs(ristretto_log(pk@), ristretto_log(p@), rr);
        let h = (ct, body, nonce);
        assert(opens_to(p@, h.2@, h.1@, m@));
        assert(ct_logs(h.0) == elgamal_enc_logs(ristretto_log(pk@), ristretto_log(p@), rr));
        assert(enc_result(pk@, m@, h));
    }
    Some((ct, body, nonce))
}

/// Hybrid ElGamal decryption with the secret key `sk`. `None` when a point
/// is malformed or the body does not authenticate.
pub fn decrypt(sk: &[u8; 32], ct: &(Ciphertext, Vec<u8>), nonce: &[u8; 12]) -> (r: Option<Vec<u8>>)
    ensures
        !ct_valid(ct.0) ==> r is None,
        ct_valid(ct.0) ==> hybrid_opens(
            point_of(elgamal_dec_logs(scalar_of(sk@), ct_logs(ct.0))),
            nonce@,
            ct.1@,
            r,
        ),
{
    let p = elgamal_dec(sk, &ct.0)?;
    proof {
        let c = ct_logs(ct.0);
        vstd::arithmetic::div_mod::lemma_mod_twice(c.1 - scalar_of(sk@) * c.0, ell());
    }
    open_under_point(&p, &ct.1, nonce)
}

/// Hybrid form of the proxy re-encryption round trip: a body encrypted
/// under `x·g`, whose ElGamal pair is re-encrypted with `y·x⁻¹`, opens under
/// `y` to the original plaintext, whatever the random point and nonce were.
pub proof fn lemma_hybrid_pre_round_trip(
    x: int,
    y: int,
    x_inv: int,
    y_inv: int,
    pk: Seq<u8>,
    m: Seq<u8>,
    h: HybridCiphertext,
    ct2: Ciphertext,
    r: Option<Vec<u8>>,
)
    requires
        ristretto_log(pk) == x,
        (x_inv * x) % ell() == 1,
        (y_inv * y) % ell() == 1,
        pre_enc_result(pk, m, h),
        ct2.0 == h.0.0,
        ristretto_log(ct2.1@) == (((y * x_inv) % ell()) * ristretto_log(h.0.1@)) % ell(),
        hybrid_opens(point_of(pre_dec_logs(y_inv, ct_logs(ct2))), h.2@, h.1@, r),
    ensures
        r matches Some(q) && q@ == m,
{
    let (p, rr) = choose|p: Seq<u8>, rr: int|
        is_point(p) && ct_logs(h.0) == #[trigger] pre_enc_logs(ristretto_log(pk), ristretto_log(p), rr)
            && #[trigger] opens_to(p, h.2@, h.1@, m);
    lemma_pre_round_trip(x, y, x_inv, y_inv, ristretto_log(p), rr);
    assert(ct_logs(ct2) == pre_re_enc_logs(ct_logs(h.0), (y * x_inv) % ell()));
    vstd::arithmetic::div_mod::lemma_small_mod(ristretto_log(p) as nat, ell() as nat);
    assert(point_of(ristretto_log(p)) == p);
}

} // verus!
