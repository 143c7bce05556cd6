//! The constant-overhead moderator-private scheme: the per-moderator tag
//! vector is replaced by one pairing value. The platform holds `k_P` and
//! publishes `k_reg = k_P⁻¹·G2`; a moderator holds `k` and publishes
//! `pk_proc = k·k_reg`; the sender blinds it to `pk_b = r·pk_proc`.
use vstd::prelude::*;
use vstd::string::StringSliceAdditionalSpecFns;
use vstd::utf8::encode_utf8;
use crate::framing::{concat, le_nat, slice_range, to_array32};
use crate::lib_blst::{
    bls_order, bls_scalar_invert, bls_scalar_mul, bls_scalar_random, g1_is_identity, g1_log, g1_mul,
    g2_log, g2_mul, g2_mul_generator, gt_decompresses, gt_log, gt_mul, hash_to_g1, hash_to_g1_of,
    is_g1, is_g2, is_gt, lemma_mul_nonzero, pairing_compressed, pairing_is_identity,
    pairing_with_generator, q_ord,
};
use crate::lib_common::{
    aead_keygen, aead_max_plaintext, bls_scalar_is_canonical, blstrs_scalar_spec, c1_carries,
    carries_malformed,
    com_commit, com_open, commit_spec, copy_bytes, ct_eq_bytes, mac_keygen, mac_prg, mac_prg_spec,
    new_blstrs_scalar, open_payload, open_spec, payload_read_ok, payload_spec, seal_payload,
    bytes_result, ReportError,
};
use crate::lib_gamal::{
    ct_valid, ell, opens_to, pre_dec, pre_enc, pre_enc_result, pre_re_enc, HybridCiphertext, Point,
};
use crate::lib_mod_priv::{keys_consistent, mp_tail, recovered_point, reportable};
use crate::ristretto::{
    checked_invert, decompresses, is_point, point_mul, random_scalar, ristretto_log, scalar_inverse,
    scalar_is_zero, scalar_mul, scalar_of,
};

verus! {

/// A compressed G1 point.
#[derive(Clone, Copy)]
pub struct G1Compressed {
    pub point: [u8; 48],
}

/// A compressed G2 point.
#[derive(Clone, Copy)]
pub struct G2Compressed {
    pub point: [u8; 96],
}

/// What senders know of a moderator: both ElGamal public keys, the
/// re-encryption key between them and the processing key `pk_proc`.
pub type PublicKey = (Point, Point, [u8; 32], G2Compressed);

/// The associated data of a message: the ephemeral key and the blinded
/// processing key `pk_b`.
pub type AssociatedData = (Point, G2Compressed);

/// What the platform hands the recipient besides the token: the encrypted
/// randomness, the ephemeral key, the blinded processing key and the
/// context.
pub type State = (HybridCiphertext, Point, G2Compressed, Vec<u8>);

/// The report document, which is also the report: the commitment, the
/// franking key, the context, the unblinded token and the re-encrypted
/// randomness.
pub type Report = (Vec<u8>, [u8; 32], Vec<u8>, [u8; 288], HybridCiphertext);

/// The platform: its secret scalar, the registration key and the registry.
pub struct Platform {
    pub k_p: [u8; 32],
    pub k_reg: G2Compressed,
    pub sk_p: Vec<([u8; 32], PublicKey)>,
}

/// A moderator: the keys of the moderator-private scheme, the secret scalar
/// `k` and the processing key.
pub struct Moderator {
    pub sk_p: [u8; 32],
    pub sk_enc: [u8; 32],
    pub pk_enc_1: Point,
    pub pk_enc_2: Point,
    pub k1_2: [u8; 32],
    pub k: [u8; 32],
    pub pk_proc: G2Compressed,
}

/// A user, with the channel key shared with its peers.
pub struct Client {
    pub msg_key: [u8; 32],
}

/// The logarithm of the point that `(c2, ctx)` hashes to in G1.
pub open spec fn h_log(c2: Seq<u8>, ctx: Seq<u8>) -> int {
    g1_log(hash_to_g1_of(c2 + ctx)@)
}

impl Platform {
    /// Whether the registration key is `k_P⁻¹·G2` for the nonzero canonical
    /// scalar `k_P`.
    pub open spec fn wf(&self) -> bool {
        &&& 0 < le_nat(self.k_p@) < bls_order()
        &&& is_g2(self.k_reg.point@)
        &&& (g2_log(self.k_reg.point@) * le_nat(self.k_p@)) % q_ord() == 1
    }

    /// A platform with a fresh secret scalar. `Rng` when it is zero.
    pub fn new() -> (p: Result<Platform, ReportError>)
        ensures
            p matches Ok(p) ==> p.wf() && p.sk_p@.len() == 0,
            p matches Err(e) ==> e == ReportError::Rng,
    {
        Self::from_secret(bls_scalar_random())
    }

    /// The platform with the secret scalar `k_p` and an empty registry:
    /// `k_reg = k_p⁻¹·G2`. `Malformed` when `k_p` is not canonical; `Rng`
    /// when it is zero.
    pub fn from_secret(k_p: [u8; 32]) -> (p: Result<Platform, ReportError>)
        ensures
            p is Ok <==> 0 < le_nat(k_p@) < bls_order(),
            p matches Ok(p) ==> p.wf() && p.k_p == k_p && p.sk_p@.len() == 0,
            p matches Err(e) ==> (e == ReportError::Malformed <==> le_nat(k_p@) >= bls_order()),
            p matches Err(e) ==> (e == ReportError::Rng || e == ReportError::Malformed),
    {
        if !bls_scalar_is_canonical(&k_p) {
            return Err(ReportError::Malformed);
        }
        let sk_inv = match bls_scalar_invert(&k_p) {
            Some(i) => i,
            None => {
                return Err(ReportError::Rng);
            },
        };
        let pk = g2_mul_generator(&sk_inv);
        Ok(Platform { k_p: k_p, k_reg: G2Compressed { point: pk }, sk_p: Vec::new() })
    }
}

impl Moderator {
    /// Whether the keys fit together as in the moderator-private scheme, and
    /// the processing key is a point.
    pub open spec fn wf(&self) -> bool {
        &&& keys_consistent(self.pk_enc_1@, self.pk_enc_2@, self.k1_2@)
        &&& ristretto_log(self.pk_enc_2@) == scalar_of(self.sk_enc@)
        &&& scalar_of(self.sk_enc@) != 0
        &&& le_nat(self.k@) < bls_order()
        &&& is_g2(self.pk_proc.point@)
    }

    /// The moderator with the ElGamal secret keys `x1` and `x2`, the tagging
    /// key `sk_p` and the secret scalar `k`, registered under `pk_reg`:
    /// `pk_proc = k·pk_reg`. `Malformed` when `k` is not canonical or
    /// `pk_reg` is not a point; else `Rng` when an ElGamal key is zero.
    pub fn from_keys(x1: [u8; 32], x2: [u8; 32], sk_p: [u8; 32], k: [u8; 32], pk_reg: &G2Compressed) -> (m: Result<
        Moderator,
        ReportError,
    >)
        ensures
            m is Ok <==> (scalar_of(x1@) != 0 && scalar_of(x2@) != 0 && le_nat(k@) < bls_order() && is_g2(
                pk_reg.point@,
            )),
            m matches Ok(m) ==> m.wf() && m.sk_enc == x2 && m.sk_p == sk_p && m.k == k && ristretto_log(
                m.pk_enc_1@,
            ) == scalar_of(x1@),
            m matches Ok(m) ==> g2_log(m.pk_proc.point@) == (le_nat(k@) * g2_log(pk_reg.point@)) % q_ord(),
            m matches Err(e) ==> (e == ReportError::Malformed <==> !(le_nat(k@) < bls_order() && is_g2(
                pk_reg.point@,
            ))),
            m matches Err(e) ==> (e == ReportError::Rng || e == ReportError::Malformed),
    {
        if !bls_scalar_is_canonical(&k) {
            return Err(ReportError::Malformed);
        }
        let pk = match g2_mul(&pk_reg.point, &k) {
            Some(p) => p,
            None => {
                return Err(ReportError::Malformed);
            },
        };
        let base = crate::lib_mod_priv::Moderator::from_keys(x1, x2, sk_p)?;
        Ok(
            Moderator {
                sk_p: base.sk_p,
                sk_enc: base.sk_enc,
                pk_enc_1: base.pk_enc_1,
                pk_enc_2: base.pk_enc_2,
                k1_2: base.k1_2,
                k: k,
                pk_proc: G2Compressed { point: pk },
            },
        )
    }

    /// A moderator with fresh keys, registered under the key `pk_reg`, as
    /// `from_keys`. `Malformed` when `pk_reg` is not a point; else `Rng` when
    /// a secret key drawn is zero.
    pub fn new(pk_reg: &G2Compressed) -> (m: Result<Moderator, ReportError>)
        ensures
            m matches Ok(m) ==> m.wf() && g2_log(m.pk_proc.point@) == (le_nat(m.k@) * g2_log(
                pk_reg.point@,
            )) % q_ord(),
            m matches Err(e) ==> (e == ReportError::Rng || e == ReportError::Malformed),
            !is_g2(pk_reg.point@) ==> (m matches Err(e) && e == ReportError::Malformed),
    {
        Self::from_keys(random_scalar(), random_scalar(), mac_keygen(), bls_scalar_random(), pk_reg)
    }
}

/// The identity behind the constant-size token: pairing `k_P·r'·H` with
/// `r·k·k_P⁻¹·G2` gives `r` times the pairing of `k·r'·H` with `G2`, on
/// logarithms.
pub proof fn lemma_token_identity(kp: int, kp_inv: int, r_prime: int, h: int, r: int, k: int)
    requires
        (kp_inv * kp) % q_ord() == 1,
    ensures
        ((kp * r_prime * h) % q_ord() * ((r * k * kp_inv) % q_ord())) % q_ord() == (r * ((k * r_prime
            * h) % q_ord())) % q_ord(),
{
    let q = q_ord();
    let a = kp * r_prime * h;
    let b = r * k * kp_inv;
    vstd::arithmetic::div_mod::lemma_mul_mod_noop_general(a, b, q);
    assert(a * b == ((r * k * r_prime * h) * kp) * kp_inv) by (nonlinear_arith)
        requires
            a == kp * r_prime * h,
            b == r * k * kp_inv,
    ;
    crate::ristretto::lemma_mul_inverse(r * k * r_prime * h, kp, kp_inv, q);
    vstd::arithmetic::div_mod::lemma_mul_mod_noop_left((r * k * r_prime * h) * kp, kp_inv, q);
    vstd::arithmetic::div_mod::lemma_mul_mod_noop_right(r, k * r_prime * h, q);
    assert(r * (k * r_prime * h) == r * k * r_prime * h) by (nonlinear_arith);
}

/// The franking key that the seed `t` expands to: the second half of the
/// PRG output.
pub open spec fn franking_of(t: Seq<u8>) -> Seq<u8> {
    mac_prg_spec(t).subrange(32, 64)
}

/// The masking scalar bytes that the seed `t` expands to: the first half of
/// the PRG output.
pub open spec fn mask_of(t: Seq<u8>) -> Seq<u8> {
    mac_prg_spec(t).subrange(0, 32)
}

/// Whether reading `(c1, c2)` under `msg_key` may yield the message `m` for
/// the moderator `id`, with the seed `t` and the re-encryption key `k_r`:
/// `c1` carries them and `c2` opens to `m` under the franking key of `t`.
pub open spec fn cm_read_ok(
    msg_key: Seq<u8>,
    c1: Seq<u8>,
    c2: Seq<u8>,
    m: Seq<char>,
    id: u32,
    t: Seq<u8>,
    k_r: Seq<u8>,
) -> bool {
    t.len() == 32 && k_r.len() == 32 && payload_read_ok(msg_key, c1, m, mp_tail(id, t, k_r))
        && open_spec(c2, encode_utf8(m), franking_of(t))
}

/// Splits the PRG output of `t` into the masking bytes and the franking key.
fn expand_seed(t: &[u8; 32]) -> (r: ([u8; 32], [u8; 32]))
    ensures
        r.0@ == mask_of(t@),
        r.1@ == franking_of(t@),
{
    let prg = mac_prg(t);
    let s = slice_range(&prg, 0, 32);
    let r = slice_range(&prg, 32, 64);
    (to_array32(s.as_slice()), to_array32(r.as_slice()))
}

impl Client {
    /// A client with a fresh channel key.
    pub fn new() -> (c: Client) {
        Client { msg_key: aead_keygen() }
    }

    /// Franked encryption of `message` for the moderator `moderator_id`
    /// with the re-encryption key `k_r` and the seed `t`; the franking key
    /// is derived from `t`.
    pub fn ccae_enc(msg_key: &[u8; 32], message: &str, moderator_id: u32, k_r: [u8; 32], t: [u8; 32]) -> (r:
        Result<(Vec<u8>, Vec<u8>), ReportError>)
        ensures
            r is Ok <==> payload_spec(message.spec_bytes(), mp_tail(moderator_id, t@, k_r@)).len()
                <= aead_max_plaintext(),
            r matches Err(e) ==> e == ReportError::Malformed,
            r matches Ok((c1, c2)) ==> c1_carries(
                msg_key@,
                c1@,
                payload_spec(message.spec_bytes(), mp_tail(moderator_id, t@, k_r@)),
            ),
            r matches Ok((c1, c2)) ==> c2@ == commit_spec(franking_of(t@), message.spec_bytes()),
    {
        let (_s, k_f) = expand_seed(&t);
        let c2 = com_commit(&k_f, message);
        let mut tail: Vec<u8> = Vec::new();
        crate::framing::put_le(&mut tail, moderator_id as u64, 4);
        tail.extend_from_slice(&t);
        tail.extend_from_slice(&k_r);
        assert(tail@ =~= mp_tail(moderator_id, t@, k_r@));
        let c1 = seal_payload(msg_key, message, tail.as_slice())?;
        Ok((c1, c2))
    }

    /// Franked decryption: the message, moderator index, re-encryption key
    /// and seed that `c1` carries, once `c2` opens under the franking key of
    /// the seed.
    pub fn ccae_dec(msg_key: &[u8; 32], c1: &Vec<u8>, c2: &Vec<u8>) -> (r: Result<
        (String, u32, [u8; 32], [u8; 32]),
        ReportError,
    >)
        ensures
            r matches Ok((m, id, k_r, t)) ==> cm_read_ok(msg_key@, c1@, c2@, m@, id, t@, k_r@),
            forall|m: Seq<char>, id: u32, t: Seq<u8>, k_r: Seq<u8>|
                #[trigger] cm_read_ok(msg_key@, c1@, c2@, m, id, t, k_r) ==> (r matches Ok(
                    (m2, id2, k_r2, t2),
                ) && m2@ == m && id2 == id && t2@ == t && k_r2@ == k_r),
            r matches Err(e) ==> (e == ReportError::Reject || e == ReportError::Malformed),
            r matches Err(e) ==> (e == ReportError::Malformed <==> carries_malformed(msg_key@, c1@, 68)),
            carries_malformed(msg_key@, c1@, 68) ==> r is Err,
    {
        proof {
            assert forall|id: u32, t: Seq<u8>, k_r: Seq<u8>|
                t.len() == 32 && k_r.len() == 32 implies #[trigger] mp_tail(id, t, k_r).len() == 68 by {
                crate::framing::lemma_le_bytes_len(id as nat, 4);
            }
        }
        let (m, tail) = open_payload(msg_key, c1, 68)?;
        let id64 = crate::framing::get_le(tail.as_slice(), 0, 4);
        proof {
            reveal_with_fuel(crate::framing::pow256, 5);
            crate::framing::lemma_le_nat_bound(tail@.subrange(0, 4));
        }
        let id = id64 as u32;
        let t = to_array32(slice_range(tail.as_slice(), 4, 36).as_slice());
        let k_r = to_array32(slice_range(tail.as_slice(), 36, 68).as_slice());
        proof {
            crate::framing::lemma_le_bytes_le_nat(tail@.subrange(0, 4));
            assert(tail@ =~= mp_tail(id, t@, k_r@));
            assert forall|m2: Seq<char>, id2: u32, t2: Seq<u8>, k_r2: Seq<u8>|
                #[trigger] cm_read_ok(msg_key@, c1@, c2@, m2, id2, t2, k_r2) implies id2 == id && t2
                == t@ && k_r2 == k_r@ by {
                crate::framing::lemma_le_bytes_len(id2 as nat, 4);
                crate::framing::lemma_le_nat_le_bytes(id2 as nat, 4);
                assert(mp_tail(id2, t2, k_r2).subrange(0, 4) =~= crate::framing::le_bytes(id2 as nat, 4));
                assert(mp_tail(id2, t2, k_r2).subrange(4, 36) =~= t2);
                assert(mp_tail(id2, t2, k_r2).subrange(36, 68) =~= k_r2);
            }
        }
        let (_s, k_f) = expand_seed(&t);
        if !com_open(c2, m.as_str(), &k_f) {
            return Err(ReportError::Reject);
        }
        Ok((m, id, k_r, t))
    }
}

/// Whether `pk_b` is the processing key `pk_proc` blinded by the BLS scalar
/// that the franking key of `t` derives.
pub open spec fn blinded_ok(t: Seq<u8>, pk_proc: Seq<u8>, pk_b: Seq<u8>) -> bool {
    &&& blstrs_scalar_spec(franking_of(t)) is Some
    &&& is_g2(pk_proc)
    &&& is_g2(pk_b)
    &&& g2_log(pk_b) == (le_nat(blstrs_scalar_spec(franking_of(t))->Some_0) * g2_log(pk_proc)) % q_ord()
}

/// What sending with the seed `t` produces for the moderator keys `pk_i`:
/// the ephemeral key (masking scalar from `t`), the blinded processing key,
/// a payload with the re-encryption key, and the commitment under the
/// franking key of `t`.
pub open spec fn cm_sent(
    msg_key: Seq<u8>,
    m: Seq<u8>,
    id: u32,
    pk_i: PublicKey,
    t: Seq<u8>,
    c1: Seq<u8>,
    c2: Seq<u8>,
    ad: AssociatedData,
) -> bool {
    &&& is_point(ad.0@)
    &&& scalar_of(mask_of(t)) != 0
    &&& ristretto_log(ad.0@) == (scalar_of(mask_of(t)) * ristretto_log(pk_i.0@)) % ell()
    &&& blinded_ok(t, pk_i.3.point@, ad.1.point@)
    &&& le_nat(blstrs_scalar_spec(franking_of(t))->Some_0) != 0
    &&& exists|k_r: Seq<u8>|
        k_r.len() == 32 && scalar_of(k_r) == (scalar_of(pk_i.2@) * scalar_inverse(
            scalar_of(mask_of(t)),
        )) % ell() && #[trigger] c1_carries(msg_key, c1, payload_spec(m, mp_tail(id, t, k_r)))
    &&& c2 == commit_spec(franking_of(t), m)
}

impl Client {
    /// Sends `message` for the moderator `moderator_id` with public keys
    /// `pk_i`, from the seed `t`. `Malformed` when a key is not a point or
    /// the message is too long; `Rng` when `t` gives a zero mask, or no BLS
    /// scalar or a zero one.
    pub fn send_with(msg_key: &[u8; 32], message: &str, moderator_id: u32, pk_i: &PublicKey, t: [u8; 32]) -> (r:
        Result<(Vec<u8>, Vec<u8>, AssociatedData), ReportError>)
        ensures
            r matches Ok((c1, c2, ad)) ==> cm_sent(
                msg_key@,
                message.spec_bytes(),
                moderator_id,
                *pk_i,
                t@,
                c1@,
                c2@,
                ad,
            ),
            r matches Err(e) ==> (e == ReportError::Malformed || e == ReportError::Rng),
            r is Ok <==> (is_point(pk_i.0@) && scalar_of(mask_of(t@)) != 0 && blstrs_scalar_spec(
                franking_of(t@),
            ) is Some && le_nat(blstrs_scalar_spec(franking_of(t@))->Some_0) != 0 && is_g2(pk_i.3.point@)
                && message.spec_bytes().len() + 76 <= aead_max_plaintext()),
    {
        let (pk1, _pk2, k1_2, pk_proc) = pk_i;
        proof {
            crate::framing::lemma_le_bytes_len(message.spec_bytes().len(), 8);
            crate::framing::lemma_le_bytes_len(moderator_id as nat, 4);
        }
        let (s, r_bytes) = expand_seed(&t);
        let epk = match point_mul(&s, pk1) {
            Some(p) => p,
            None => {
                return Err(ReportError::Malformed);
            },
        };
        let s_inv = match checked_invert(&s) {
            Some(i) => i,
            None => {
                return Err(ReportError::Rng);
            },
        };
        let k_r = scalar_mul(k1_2, &s_inv);
        let r = match new_blstrs_scalar(r_bytes) {
            Some(r) => r,
            None => {
                return Err(ReportError::Rng);
            },
        };
        if bls_scalar_invert(&r).is_none() {
            return Err(ReportError::Rng);
        }
        let pk_b = match g2_mul(&pk_proc.point, &r) {
            Some(p) => p,
            None => {
                return Err(ReportError::Malformed);
            },
        };
        let (c1, c2) = Self::ccae_enc(msg_key, message, moderator_id, k_r, t)?;
        proof {
            vstd::arithmetic::div_mod::lemma_small_mod(le_nat(k_r@), ell() as nat);
            assert(c1_carries(msg_key@, c1@, payload_spec(message.spec_bytes(), mp_tail(moderator_id, t@, k_r@))));
        }
        Ok((c1, c2, (epk, G2Compressed { point: pk_b })))
    }

    /// Sends `message` for the moderator `moderator_id` from a fresh seed.
    pub fn send(msg_key: &[u8; 32], message: &str, moderator_id: u32, pk_i: &PublicKey) -> (r: Result<
        (Vec<u8>, Vec<u8>, AssociatedData),
        ReportError,
    >)
        ensures
            r matches Ok((c1, c2, ad)) ==> exists|t: Seq<u8>|
                #[trigger] cm_sent(msg_key@, message.spec_bytes(), moderator_id, *pk_i, t, c1@, c2@, ad),
            r matches Err(e) ==> (e == ReportError::Malformed || e == ReportError::Rng),
            !is_point(pk_i.0@) || !is_g2(pk_i.3.point@) || message.spec_bytes().len() + 76
                > aead_max_plaintext() ==> r is Err,
    {
        let t = mac_keygen();
        let r = Self::send_with(msg_key, message, moderator_id, pk_i, t);
        proof {
            if r is Ok {
                let (c1, c2, ad) = r->Ok_0;
                assert(cm_sent(msg_key@, message.spec_bytes(), moderator_id, *pk_i, t@, c1@, c2@, ad));
            }
        }
        r
    }
}

/// What processing with the platform scalar `k_p` and the randomness `r'`
/// yields: the token `e((k_p·r')·H(c2 ∥ ctx), pk_b)`, and `r'` proxy-encrypted
/// under the ephemeral key.
pub open spec fn cm_processed(
    k_p: Seq<u8>,
    c2: Seq<u8>,
    ad: AssociatedData,
    ctx: Seq<u8>,
    r_prime: Seq<u8>,
    sigma: Seq<u8>,
    st: State,
) -> bool {
    &&& is_gt(sigma)
    &&& gt_log(sigma) == (((le_nat(k_p) * le_nat(r_prime)) as int % q_ord() * h_log(c2, ctx)) % q_ord()
        * g2_log(ad.1.point@)) % q_ord()
    &&& pre_enc_result(ad.0@, r_prime, st.0)
    &&& st.1 == ad.0
    &&& st.2.point == ad.1.point
    &&& st.3@ == ctx
}

impl Platform {
    /// Processes `(c2, ctx)` with the platform scalar `k_p` and the
    /// randomness `r_prime`. `Malformed` when a scalar is not canonical, a
    /// key is not a point, or the token would be the identity.
    pub fn process_with(
        k_p: &[u8; 32],
        c2: &Vec<u8>,
        ad: &AssociatedData,
        ctx: &Vec<u8>,
        r_prime: &[u8; 32],
    ) -> (res: Result<([u8; 288], State), ReportError>)
        ensures
            res matches Ok((sigma, st)) ==> cm_processed(k_p@, c2@, *ad, ctx@, r_prime@, sigma@, st),
            res matches Err(e) ==> e == ReportError::Malformed,
            !is_g2(ad.1.point@) || !is_point(ad.0@) ==> res is Err,
            res is Ok <==> (le_nat(k_p@) < bls_order() && le_nat(r_prime@) < bls_order() && is_g2(
                ad.1.point@,
            ) && is_point(ad.0@) && ((((le_nat(k_p@) * le_nat(r_prime@)) as int % q_ord() * h_log(
                c2@,
                ctx@,
            )) % q_ord()) * g2_log(ad.1.point@)) % q_ord() != 0),
    {
        if !bls_scalar_is_canonical(k_p) || !bls_scalar_is_canonical(r_prime) {
            return Err(ReportError::Malformed);
        }
        let (epk, pk_b) = ad;
        let msg = concat(c2.as_slice(), ctx.as_slice());
        let h = hash_to_g1(msg.as_slice());
        let kr = bls_scalar_mul(k_p, r_prime);
        let h2 = match g1_mul(&h, &kr) {
            Some(p) => p,
            None => {
                return Err(ReportError::Malformed);
            },
        };
        match pairing_is_identity(&h2, &pk_b.point) {
            Some(false) => {},
            _ => {
                return Err(ReportError::Malformed);
            },
        }
        let sigma = pairing_compressed(&h2, &pk_b.point);
        let rp = copy_bytes(r_prime);
        let c_r = match pre_enc(epk, &rp) {
            Some(c) => c,
            None => {
                return Err(ReportError::Malformed);
            },
        };
        Ok((sigma, (c_r, *epk, G2Compressed { point: pk_b.point }, copy_bytes(ctx.as_slice()))))
    }

    /// Processes `(c2, ctx)` with fresh randomness.
    pub fn process(
        k_p: &[u8; 32],
        _ks: &Vec<([u8; 32], PublicKey)>,
        _c1: &Vec<u8>,
        c2: &Vec<u8>,
        ad: &AssociatedData,
        ctx: &Vec<u8>,
    ) -> (res: Result<([u8; 288], State), ReportError>)
        ensures
            res matches Ok((sigma, st)) ==> exists|r_prime: Seq<u8>|
                #[trigger] cm_processed(k_p@, c2@, *ad, ctx@, r_prime, sigma@, st),
            res matches Err(e) ==> e == ReportError::Malformed,
            !is_g2(ad.1.point@) || !is_point(ad.0@) ==> res is Err,
    {
        let r_prime = bls_scalar_random();
        let res = Self::process_with(k_p, c2, ad, ctx, &r_prime);
        proof {
            if res is Ok {
                let (sigma, st) = res->Ok_0;
                assert(cm_processed(k_p@, c2@, *ad, ctx@, r_prime@, sigma@, st));
            }
        }
        res
    }
}

/// Whether `sigma2` is the token `sigma` unblinded by the BLS scalar of the
/// franking key of `t`: that scalar times `sigma2` is `sigma`.
pub open spec fn unblinded(t: Seq<u8>, sigma: Seq<u8>, sigma2: Seq<u8>) -> bool {
    &&& blstrs_scalar_spec(franking_of(t)) is Some
    &&& is_gt(sigma)
    &&& is_gt(sigma2)
    &&& (le_nat(blstrs_scalar_spec(franking_of(t))->Some_0) * gt_log(sigma2)) % q_ord() == gt_log(sigma)
}

/// Whether `rd` is the report document for the seed `t`, the re-encryption
/// key `k_r`, the token `sigma` and the state `st`, given the commitment
/// `c2`.
pub open spec fn cm_doc_ok(c2: Seq<u8>, t: Seq<u8>, k_r: Seq<u8>, sigma: Seq<u8>, st: State, rd: Report) -> bool {
    &&& rd.0@ == c2
    &&& rd.1@ == franking_of(t)
    &&& rd.2@ == st.3@
    &&& unblinded(t, sigma, rd.3@)
    &&& rd.4.0.0 == st.0.0.0
    &&& is_point(rd.4.0.1@)
    &&& ristretto_log(rd.4.0.1@) == (scalar_of(k_r) * ristretto_log(st.0.0.1@)) % ell()
    &&& rd.4.1@ == st.0.1@
    &&& rd.4.2 == st.0.2
}

/// The checks that Read makes once the payload is decrypted and the
/// commitment opens, in order: `Invariant` when the moderator index is
/// outside `pks`; `Malformed` when the ephemeral key or the second key is not
/// a point; `Reject` when the reportability check fails; `Malformed` when
/// the seed gives no BLS scalar or a processing key is not a point; `Reject`
/// when `pk_b` is not the blinded processing key; `Malformed` when the
/// blinding scalar is zero, the token is not a G_T encoding or the
/// randomness ciphertext's second point is malformed.
pub open spec fn cm_read_check(
    pks: Seq<PublicKey>,
    st: State,
    sigma: Seq<u8>,
    id: u32,
    t: Seq<u8>,
    k_r: Seq<u8>,
) -> Result<(), ReportError> {
    if id >= pks.len() {
        Err(ReportError::Invariant)
    } else if !(is_point(st.1@) && is_point(pks[id as int].1@)) {
        Err(ReportError::Malformed)
    } else if !reportable(k_r, st.1@, pks[id as int].1@) {
        Err(ReportError::Reject)
    } else if !(blstrs_scalar_spec(franking_of(t)) is Some && is_g2(pks[id as int].3.point@) && is_g2(
        st.2.point@,
    )) {
        Err(ReportError::Malformed)
    } else if !blinded_ok(t, pks[id as int].3.point@, st.2.point@) {
        Err(ReportError::Reject)
    } else if !(le_nat(blstrs_scalar_spec(franking_of(t))->Some_0) != 0 && is_gt(sigma) && is_point(
        st.0.0.1@,
    )) {
        Err(ReportError::Malformed)
    } else {
        Ok(())
    }
}

/// What a successful read returns: the message and moderator index that
/// `c1` carries with some seed and re-encryption key, which pass the
/// reportability and blinding checks, and the report document built from
/// them.
pub open spec fn cm_read_sound(
    msg_key: Seq<u8>,
    pks: Seq<PublicKey>,
    c1: Seq<u8>,
    c2: Seq<u8>,
    sigma: Seq<u8>,
    st: State,
    m: Seq<char>,
    id: u32,
    rd: Report,
) -> bool {
    id < pks.len() && exists|t: Seq<u8>, k_r: Seq<u8>|
        #[trigger] cm_read_ok(msg_key, c1, c2, m, id, t, k_r) && reportable(k_r, st.1@, pks[id as int].1@)
            && blinded_ok(t, pks[id as int].3.point@, st.2.point@) && cm_doc_ok(c2, t, k_r, sigma, st, rd)
}

impl Client {
    /// Reads a processed message: decrypts and opens it, checks that it is
    /// reportable to the moderator it names and that `pk_b` is that
    /// moderator's processing key blinded by the sender's scalar, unblinds
    /// the token and re-encrypts the platform's randomness.
    pub fn read(
        msg_key: &[u8; 32],
        pks: &Vec<PublicKey>,
        c1: &Vec<u8>,
        c2: &Vec<u8>,
        sigma: &[u8; 288],
        st: &State,
    ) -> (r: Result<(String, u32, Report), ReportError>)
        ensures
            r matches Ok((m, id, rd)) ==> cm_read_sound(msg_key@, pks@, c1@, c2@, sigma@, *st, m@, id, rd),
            forall|m: Seq<char>, id: u32, t: Seq<u8>, k_r: Seq<u8>|
                #[trigger] cm_read_ok(msg_key@, c1@, c2@, m, id, t, k_r) && id < pks@.len()
                    && reportable(k_r, st.1@, pks@[id as int].1@) && blinded_ok(
                    t,
                    pks@[id as int].3.point@,
                    st.2.point@,
                ) && le_nat(blstrs_scalar_spec(franking_of(t))->Some_0) != 0 && is_gt(sigma@)
                    && is_point(st.0.0.1@) ==> (r matches Ok((m2, id2, rd)) && m2@ == m && id2 == id
                    && cm_doc_ok(c2@, t, k_r, sigma@, *st, rd)),
            r matches Err(e) ==> (e == ReportError::Reject || e == ReportError::Malformed || e
                == ReportError::Invariant),
            forall|m: Seq<char>, id: u32, t: Seq<u8>, k_r: Seq<u8>|
                #[trigger] cm_read_ok(msg_key@, c1@, c2@, m, id, t, k_r) && cm_read_check(
                    pks@,
                    *st,
                    sigma@,
                    id,
                    t,
                    k_r,
                ) is Err ==> (r matches Err(e) && cm_read_check(pks@, *st, sigma@, id, t, k_r) == Err::<
                    (),
                    ReportError,
                >(e)),
            carries_malformed(msg_key@, c1@, 68) ==> (r matches Err(e) && e == ReportError::Malformed),
            (forall|m: Seq<char>, id: u32, t: Seq<u8>, k_r: Seq<u8>|
                !#[trigger] cm_read_ok(msg_key@, c1@, c2@, m, id, t, k_r)) && !carries_malformed(
                msg_key@,
                c1@,
                68,
            ) ==> (r matches Err(e) && e == ReportError::Reject),
    {
        let (c_r, epk, pk_b, ctx) = st;
        let (message, moderator_id, k_r, t) = Client::ccae_dec(msg_key, c1, c2)?;
        if moderator_id as usize >= pks.len() {
            return Err(ReportError::Invariant);
        }
        let (_pk1, pk2, _k1_2, pk_proc) = &pks[moderator_id as usize];
        let moved = match point_mul(&k_r, epk) {
            Some(p) => p,
            None => {
                return Err(ReportError::Malformed);
            },
        };
        if !decompresses(pk2) {
            return Err(ReportError::Malformed);
        }
        proof {
            vstd::arithmetic::div_mod::lemma_mod_twice(scalar_of(k_r@) * ristretto_log(epk@), ell());
            crate::ristretto::lemma_point_eq(moved@, pk2@);
        }
        if !ct_eq_bytes(&moved, pk2) {
            return Err(ReportError::Reject);
        }
        let (_s, r_bytes) = expand_seed(&t);
        let r = match new_blstrs_scalar(r_bytes) {
            Some(r) => r,
            None => {
                return Err(ReportError::Malformed);
            },
        };
        let rp = match g2_mul(&pk_proc.point, &r) {
            Some(p) => p,
            None => {
                return Err(ReportError::Malformed);
            },
        };
        if !crate::lib_blst::g2_decompresses(&pk_b.point) {
            return Err(ReportError::Malformed);
        }
        proof {
            vstd::arithmetic::div_mod::lemma_mod_twice(le_nat(r@) * g2_log(pk_proc.point@), q_ord());
        }
        if !ct_eq_bytes(&rp, &pk_b.point) {
            return Err(ReportError::Reject);
        }
        let r_inv = match bls_scalar_invert(&r) {
            Some(i) => i,
            None => {
                return Err(ReportError::Malformed);
            },
        };
        if !gt_decompresses(sigma) {
            return Err(ReportError::Malformed);
        }
        proof {
            let q = q_ord();
            let g = gt_log(sigma@);
            vstd::arithmetic::div_mod::lemma_small_mod(g as nat, q as nat);
            assert((le_nat(r@) * le_nat(r_inv@)) as int % q == 1) by {
                assert(le_nat(r@) * le_nat(r_inv@) == le_nat(r_inv@) * le_nat(r@)) by (nonlinear_arith);
            }
            lemma_mul_nonzero(g, le_nat(r_inv@) as int, le_nat(r@) as int, q);
        }
        let sigma2 = gt_mul(sigma, &r_inv);
        proof {
            let q = q_ord();
            let g = gt_log(sigma@);
            crate::ristretto::lemma_mul_inverse(g, le_nat(r_inv@) as int, le_nat(r@) as int, q);
            assert(le_nat(r_inv@) * g == g * le_nat(r_inv@)) by (nonlinear_arith);
            vstd::arithmetic::div_mod::lemma_small_mod(g as nat, q as nat);
        }
        let c_r2 = match pre_re_enc(&c_r.0, &k_r) {
            Some(c) => c,
            None => {
                return Err(ReportError::Malformed);
            },
        };
        let rd: Report = (
            copy_bytes(c2.as_slice()),
            r_bytes,
            copy_bytes(ctx.as_slice()),
            sigma2,
            (c_r2, copy_bytes(c_r.1.as_slice()), c_r.2),
        );
        proof {
            assert(cm_doc_ok(c2@, t@, k_r@, sigma@, *st, rd));
            assert(blinded_ok(t@, pks@[moderator_id as int].3.point@, st.2.point@));
            assert(reportable(k_r@, st.1@, pks@[moderator_id as int].1@));
            assert(cm_read_ok(msg_key@, c1@, c2@, message@, moderator_id, t@, k_r@));
            assert(cm_read_sound(msg_key@, pks@, c1@, c2@, sigma@, *st, message@, moderator_id, rd));
        }
        Ok((message, moderator_id, rd))
    }

    /// The report is the report document itself.
    pub fn report_gen(_msg: &String, rd: &Report) -> (report: Report)
        ensures
            report.0@ == rd.0@ && report.1 == rd.1 && report.2@ == rd.2@ && report.3 == rd.3,
            report.4.0 == rd.4.0 && report.4.1@ == rd.4.1@ && report.4.2 == rd.4.2,
    {
        (
            copy_bytes(rd.0.as_slice()),
            rd.1,
            copy_bytes(rd.2.as_slice()),
            rd.3,
            (rd.4.0, copy_bytes(rd.4.1.as_slice()), rd.4.2),
        )
    }
}

/// Whether the moderator with keys `(sk, k)` accepts `report` on the message
/// bytes `m`, the decrypted randomness being `rpp`: the keys are valid, the
/// re-encrypted randomness opens to `rpp`, a canonical scalar, the token is
/// `e((k·rpp)·H(c2 ∥ ctx), G2)` and `c2` opens to `m` under the franking key.
pub open spec fn cm_moderate_ok(sk: Seq<u8>, k: Seq<u8>, m: Seq<u8>, report: Report, rpp: Seq<u8>) -> bool {
    &&& scalar_of(sk) != 0
    &&& ct_valid(report.4.0)
    &&& le_nat(k) < bls_order()
    &&& opens_to(recovered_point(sk, report.4.0), report.4.2@, report.4.1@, rpp)
    &&& rpp.len() == 32
    &&& le_nat(rpp) < bls_order()
    &&& is_gt(report.3@)
    &&& gt_log(report.3@) == ((le_nat(k) * le_nat(rpp)) as int % q_ord() * h_log(report.0@, report.2@))
        % q_ord()
    &&& open_spec(report.0@, m, report.1@)
}

/// The moderator's decision: `Malformed` when a key is invalid or the
/// ciphertext's points are malformed; the context when some decrypted
/// randomness makes the report acceptable; `Reject` otherwise. A token
/// that is not a G_T encoding gets `Reject`, like any other altered report
/// field: it is only checked after the randomness is recovered, and a bit
/// flipped in it is a tampered report rather than a malformed one.
pub open spec fn cm_moderate_spec(sk: Seq<u8>, k: Seq<u8>, m: Seq<u8>, report: Report) -> Result<
    Seq<u8>,
    ReportError,
> {
    if !(scalar_of(sk) != 0 && ct_valid(report.4.0) && le_nat(k) < bls_order()) {
        Err(ReportError::Malformed)
    } else if exists|rpp: Seq<u8>| #[trigger] cm_moderate_ok(sk, k, m, report, rpp) {
        Ok(report.2@)
    } else {
        Err(ReportError::Reject)
    }
}

impl Moderator {
    /// Judges a report on `message`: recovers the platform's randomness,
    /// recomputes the token with the secret scalar `k` and compares it with
    /// the report's, and opens the commitment; the context on success.
    /// `Malformed` when a key is invalid or the ciphertext's points are
    /// malformed; `Reject` for every other failure, an invalid token
    /// encoding included.
    pub fn moderate(
        sk_enc: &[u8; 32],
        k: &[u8; 32],
        _sk_p: &[u8; 32],
        _moderator_id: usize,
        message: &str,
        report: &Report,
    ) -> (r: Result<Vec<u8>, ReportError>)
        ensures
            !(scalar_of(sk_enc@) != 0 && ct_valid(report.4.0) && le_nat(k@) < bls_order()) ==> r
                == Err::<Vec<u8>, ReportError>(ReportError::Malformed),
            r matches Ok(c) ==> c@ == report.2@ && exists|rpp: Seq<u8>|
                #[trigger] cm_moderate_ok(sk_enc@, k@, message.spec_bytes(), *report, rpp),
            forall|rpp: Seq<u8>|
                #[trigger] cm_moderate_ok(sk_enc@, k@, message.spec_bytes(), *report, rpp) ==> (r matches Ok(
                    c,
                ) && c@ == report.2@),
            r matches Err(e) ==> (e == ReportError::Reject || e == ReportError::Malformed),
            bytes_result(r) == cm_moderate_spec(sk_enc@, k@, message.spec_bytes(), *report),
    {
        let (c2, k_f, ctx, sigma2, (ct, body, nonce)) = report;
        if scalar_is_zero(sk_enc) || !decompresses(&ct.0) || !decompresses(&ct.1)
            || !bls_scalar_is_canonical(k) {
            return Err(ReportError::Malformed);
        }
        let rpp = match pre_dec(sk_enc, &(*ct, copy_bytes(body.as_slice())), nonce) {
            Some(x) => x,
            None => {
                return Err(ReportError::Reject);
            },
        };
        if rpp.len() != 32 {
            return Err(ReportError::Reject);
        }
        let rpp = to_array32(rpp.as_slice());
        if !bls_scalar_is_canonical(&rpp) {
            return Err(ReportError::Reject);
        }
        let msg = concat(c2.as_slice(), ctx.as_slice());
        let h = hash_to_g1(msg.as_slice());
        let kr = bls_scalar_mul(k, &rpp);
        let h2 = match g1_mul(&h, &kr) {
            Some(p) => p,
            None => {
                return Err(ReportError::Reject);
            },
        };
        match g1_is_identity(&h2) {
            Some(false) => {},
            _ => {
                return Err(ReportError::Reject);
            },
        }
        if !gt_decompresses(sigma2) {
            return Err(ReportError::Reject);
        }
        let e = pairing_with_generator(&h2);
        proof {
            vstd::arithmetic::div_mod::lemma_small_mod(le_nat(kr@), q_ord() as nat);
        }
        if !ct_eq_bytes(&e, sigma2) {
            return Err(ReportError::Reject);
        }
        if !com_open(c2, message, k_f) {
            return Err(ReportError::Reject);
        }
        proof {
            assert(cm_moderate_ok(sk_enc@, k@, message.spec_bytes(), *report, rpp@));
        }
        Ok(copy_bytes(ctx.as_slice()))
    }
}

/// A platform with fresh keys and an empty registry. `Rng` when its
/// secret scalar is zero.
pub fn test_setup_platform() -> (platform: Result<Platform, ReportError>)
    ensures
        platform matches Ok(p) ==> p.wf() && p.sk_p@.len() == 0,
        platform matches Err(e) ==> e == ReportError::Rng,
{
    Platform::new()
}

/// Whether the registry `after` is `before` followed by the tagging keys and
/// public keys of the `n` well-formed moderators `mods`, registered under
/// `k_reg`, and `pks` holds their public keys, in the same order.
pub open spec fn registered(
    before: Seq<([u8; 32], PublicKey)>,
    after: Seq<([u8; 32], PublicKey)>,
    k_reg: Seq<u8>,
    mods: Seq<Moderator>,
    pks: Seq<PublicKey>,
    n: int,
) -> bool {
    &&& mods.len() == n
    &&& pks.len() == n
    &&& after.len() == before.len() + n
    &&& forall|i: int|
        0 <= i < n ==> (#[trigger] mods[i]).wf() && g2_log(mods[i].pk_proc.point@) == (le_nat(mods[i].k@)
            * g2_log(k_reg)) % q_ord() && pks[i] == (
            mods[i].pk_enc_1,
            mods[i].pk_enc_2,
            mods[i].k1_2,
            mods[i].pk_proc,
        ) && after[before.len() + i] == (mods[i].sk_p, pks[i])
}

/// Whether each key quadruple `(x1, x2, sk_p, k)` has nonzero ElGamal keys
/// and a canonical scalar `k`.
pub open spec fn keys_usable(keys: Seq<([u8; 32], [u8; 32], [u8; 32], [u8; 32])>) -> bool {
    forall|i: int|
        0 <= i < keys.len() ==> scalar_of(#[trigger] keys[i].0@) != 0 && scalar_of(keys[i].1@) != 0 && le_nat(
            keys[i].3@,
        ) < bls_order()
}

/// Makes one moderator per key quadruple `(x1, x2, sk_p, k)` under the
/// platform's registration key and registers each, in order. `Rng` when an
/// ElGamal key is zero; `Malformed` when a `k` is not canonical or the
/// registration key is not a point; the moderators made before stay
/// registered.
pub fn test_setup_mod_with(platform: &mut Platform, keys: &Vec<([u8; 32], [u8; 32], [u8; 32], [u8; 32])>) -> (r:
    Result<(Vec<Moderator>, Vec<PublicKey>), ReportError>)
    ensures
        forall|i: int| 0 <= i < old(platform).sk_p@.len() ==> final(platform).sk_p@[i] == old(platform).sk_p@[i],
        final(platform).k_p == old(platform).k_p && final(platform).k_reg == old(platform).k_reg,
        r is Ok <==> (keys_usable(keys@) && (keys@.len() == 0 || is_g2(old(platform).k_reg.point@))),
        r matches Err(e) ==> (e == ReportError::Rng || e == ReportError::Malformed),
        r matches Ok((mods, pks)) ==> registered(
            old(platform).sk_p@,
            final(platform).sk_p@,
            old(platform).k_reg.point@,
            mods@,
            pks@,
            keys@.len() as int,
        ),
        r matches Ok((mods, pks)) ==> forall|i: int|
            0 <= i < keys@.len() ==> mods@[i].sk_enc == keys@[i].1 && mods@[i].sk_p == keys@[i].2
                && mods@[i].k == keys@[i].3 && ristretto_log(mods@[i].pk_enc_1@) == scalar_of(keys@[i].0@),
{
    let ghost start = platform.sk_p@;
    let n = keys.len();
    let mut moderators: Vec<Moderator> = Vec::with_capacity(n);
    let mut pks: Vec<PublicKey> = Vec::with_capacity(n);
    let mut i: usize = 0;
    while i < n
        invariant
            0 <= i <= n == keys@.len(),
            moderators@.len() == i && pks@.len() == i,
            platform.sk_p@.len() == start.len() + i,
            platform.k_p == old(platform).k_p && platform.k_reg == old(platform).k_reg,
            start == old(platform).sk_p@,
            i > 0 ==> is_g2(old(platform).k_reg.point@),
            forall|j: int| 0 <= j < start.len() ==> platform.sk_p@[j] == start[j],
            forall|j: int|
                0 <= j < i ==> scalar_of(#[trigger] keys@[j].0@) != 0 && scalar_of(keys@[j].1@) != 0
                    && le_nat(keys@[j].3@) < bls_order(),
            forall|j: int| 0 <= j < i ==> #[trigger] moderators@[j].wf(),
            forall|j: int|
                0 <= j < i ==> (#[trigger] moderators@[j]).sk_enc == keys@[j].1 && moderators@[j].sk_p
                    == keys@[j].2 && moderators@[j].k == keys@[j].3 && ristretto_log(
                    moderators@[j].pk_enc_1@,
                ) == scalar_of(keys@[j].0@),
            forall|j: int|
                0 <= j < i ==> g2_log(#[trigger] moderators@[j].pk_proc.point@) == (le_nat(
                    moderators@[j].k@,
                ) * g2_log(old(platform).k_reg.point@)) % q_ord(),
            forall|j: int|
                0 <= j < i ==> #[trigger] pks@[j] == (
                    moderators@[j].pk_enc_1,
                    moderators@[j].pk_enc_2,
                    moderators@[j].k1_2,
                    moderators@[j].pk_proc,
                ),
            forall|j: int|
                0 <= j < i ==> platform.sk_p@[start.len() + j] == (#[trigger] moderators@[j].sk_p, pks@[j]),
        decreases n - i,
    {
        let (x1, x2, sk_p, k) = keys[i];
        let moderator = Moderator::from_keys(x1, x2, sk_p, k, &platform.k_reg)?;
        let pk: PublicKey = (moderator.pk_enc_1, moderator.pk_enc_2, moderator.k1_2, moderator.pk_proc);
        platform.sk_p.push((moderator.sk_p, pk));
        pks.push(pk);
        moderators.push(moderator);
        i = i + 1;
    }
    Ok((moderators, pks))
}

/// Creates `num_moderators` moderators with fresh keys under the platform's
/// registration key and registers each, as `test_setup_mod_with`. `Rng`
/// when a key drawn is zero; `Malformed` when the registration key is not a
/// point.
pub fn test_setup_mod(platform: &mut Platform, num_moderators: usize) -> (r: Result<
    (Vec<Moderator>, Vec<PublicKey>),
    ReportError,
>)
    ensures
        forall|i: int| 0 <= i < old(platform).sk_p@.len() ==> final(platform).sk_p@[i] == old(platform).sk_p@[i],
        final(platform).k_p == old(platform).k_p && final(platform).k_reg == old(platform).k_reg,
        r matches Err(e) ==> (e == ReportError::Rng || e == ReportError::Malformed),
        num_moderators > 0 && !is_g2(old(platform).k_reg.point@) ==> r is Err,
        r matches Ok((mods, pks)) ==> registered(
            old(platform).sk_p@,
            final(platform).sk_p@,
            old(platform).k_reg.point@,
            mods@,
            pks@,
            num_moderators as int,
        ),
{
    let mut keys: Vec<([u8; 32], [u8; 32], [u8; 32], [u8; 32])> = Vec::with_capacity(num_moderators);
    let mut i: usize = 0;
    while i < num_moderators
        invariant
            0 <= i <= num_moderators,
            keys@.len() == i,
            *platform == *old(platform),
        decreases num_moderators - i,
    {
        keys.push((random_scalar(), random_scalar(), mac_keygen(), bls_scalar_random()));
        i = i + 1;
    }
    test_setup_mod_with(platform, &keys)
}

/// `num_clients` clients, each with a fresh channel key.
pub fn test_init_clients(num_clients: usize) -> (clients: Vec<Client>)
    ensures
        clients@.len() == num_clients,
{
    let mut clients: Vec<Client> = Vec::with_capacity(num_clients);
    let mut i: usize = 0;
    while i < num_clients
        invariant
            0 <= i <= num_clients,
            clients@.len() == i,
        decreases num_clients - i,
    {
        clients.push(Client::new());
        i = i + 1;
    }
    clients
}

/// The unblinded token that an honest run produces is the one the
/// moderator recomputes: with `k_reg = k_P⁻¹·G2`, `pk_proc = k·k_reg`,
/// `pk_b = r·pk_proc` and `σ = e((k_P·r')·H, pk_b)`, the value `σ'` with
/// `r·σ' = σ` is `e((k·r')·H, G2)`, on logarithms.
pub proof fn lemma_unblinded_token(
    kp: int,
    kreg: int,
    k: int,
    r: int,
    r_inv: int,
    r_prime: int,
    h: int,
    sigma: int,
    sigma2: int,
)
    requires
        (kreg * kp) % q_ord() == 1,
        (r_inv * r) % q_ord() == 1,
        sigma == (((kp * r_prime) % q_ord() * h) % q_ord() * ((r * ((k * kreg) % q_ord())) % q_ord()))
            % q_ord(),
        0 <= sigma2 < q_ord(),
        (r * sigma2) % q_ord() == sigma,
    ensures
        sigma2 == ((k * r_prime) % q_ord() * h) % q_ord(),
{
    let q = q_ord();
    let a = (kp * r_prime) % q;
    vstd::arithmetic::div_mod::lemma_mul_mod_noop_left(kp * r_prime, h, q);
    vstd::arithmetic::div_mod::lemma_mul_mod_noop_right(r, k * kreg, q);
    assert(r * (k * kreg) == r * k * kreg) by (nonlinear_arith);
    assert((kp * r_prime) * h == kp * r_prime * h) by (nonlinear_arith);
    vstd::arithmetic::div_mod::lemma_mul_mod_noop_general(kp * r_prime * h, r * k * kreg, q);
    lemma_token_identity(kp, kreg, r_prime, h, r, k);
    // sigma = r·X with X = (k·r'·h) mod q
    let x = (k * r_prime * h) % q;
    assert(sigma == (r * x) % q);
    // cancel r on both sides
    crate::ristretto::lemma_mul_inverse(sigma2, r, r_inv, q);
    crate::ristretto::lemma_mul_inverse(x, r, r_inv, q);
    assert(sigma2 * r == r * sigma2) by (nonlinear_arith);
    assert(x * r == r * x) by (nonlinear_arith);
    vstd::arithmetic::div_mod::lemma_small_mod(sigma2 as nat, q as nat);
    vstd::arithmetic::div_mod::lemma_mod_twice(k * r_prime * h, q);
    vstd::arithmetic::div_mod::lemma_mul_mod_noop_left(k * r_prime, h, q);
    assert((k * r_prime) * h == k * r_prime * h) by (nonlinear_arith);
}

/// A message sent for a registered moderator from a platform with
/// consistent keys, processed, read and reported, is accepted by that
/// moderator, with the platform's randomness as the decrypted value.
pub proof fn lemma_const_mod_priv_round_trip(
    pk1: Seq<u8>,
    pk2: Seq<u8>,
    k1_2: Seq<u8>,
    sk: Seq<u8>,
    sk_inv: int,
    k: Seq<u8>,
    pk_proc: Seq<u8>,
    kp: Seq<u8>,
    kreg: Seq<u8>,
    m: Seq<u8>,
    t: Seq<u8>,
    s_inv: int,
    r_inv: int,
    k_r: Seq<u8>,
    ad: AssociatedData,
    r_prime: Seq<u8>,
    sigma: Seq<u8>,
    st: State,
    rd: Report,
)
    requires
        keys_consistent(pk1, pk2, k1_2),
        ristretto_log(pk2) == scalar_of(sk),
        0 <= sk_inv < ell(),
        (sk_inv * scalar_of(sk)) % ell() == 1,
        le_nat(k) < bls_order(),
        is_g2(kreg),
        (g2_log(kreg) * le_nat(kp)) % q_ord() == 1,
        g2_log(pk_proc) == (le_nat(k) * g2_log(kreg)) % q_ord(),
        is_point(ad.0@),
        ristretto_log(ad.0@) == (scalar_of(mask_of(t)) * ristretto_log(pk1)) % ell(),
        (s_inv * scalar_of(mask_of(t))) % ell() == 1,
        scalar_of(k_r) == (scalar_of(k1_2) * s_inv) % ell(),
        blinded_ok(t, pk_proc, ad.1.point@),
        (r_inv * le_nat(blstrs_scalar_spec(franking_of(t))->Some_0)) % q_ord() == 1,
        r_prime.len() == 32,
        le_nat(r_prime) < bls_order(),
        cm_processed(kp, rd.0@, ad, rd.2@, r_prime, sigma, st),
        cm_doc_ok(rd.0@, t, k_r, sigma, st, rd),
        rd.0@ == commit_spec(franking_of(t), m),
    ensures
        cm_moderate_ok(sk, k, m, rd, r_prime),
        cm_moderate_spec(sk, k, m, rd) == Ok::<Seq<u8>, ReportError>(rd.2@),
{
    let epk = ad.0@;
    crate::lib_mod_priv::lemma_reportable(pk1, pk2, k1_2, scalar_of(mask_of(t)), s_inv, k_r, epk);
    let (p, rr) = choose|p: Seq<u8>, rr: int|
        is_point(p) && crate::lib_gamal::ct_logs(st.0.0) == #[trigger] crate::lib_gamal::pre_enc_logs(
            ristretto_log(epk),
            ristretto_log(p),
            rr,
        ) && #[trigger] opens_to(p, st.0.2@, st.0.1@, r_prime);
    crate::lib_mod_priv::lemma_recover_after_reenc(sk, sk_inv, k_r, epk, p, rr, st.0.0, rd.4.0);
    let r = le_nat(blstrs_scalar_spec(franking_of(t))->Some_0) as int;
    lemma_unblinded_token(
        le_nat(kp) as int,
        g2_log(kreg),
        le_nat(k) as int,
        r,
        r_inv,
        le_nat(r_prime) as int,
        h_log(rd.0@, rd.2@),
        gt_log(sigma),
        gt_log(rd.3@),
    );
    let x2 = scalar_of(sk);
    if x2 == 0 {
        assert(sk_inv * x2 == 0) by (nonlinear_arith)
            requires
                x2 == 0,
        ;
        vstd::arithmetic::div_mod::lemma_small_mod(0, ell() as nat);
    }
    assert(ct_valid(rd.4.0));
}

} // verus!
