//! The moderator-private scheme: the platform tags each message for every
//! moderator and proxy-encrypts the vector of tags under an ephemeral key
//! that the sender derived for one moderator, so that the platform does not
//! learn which moderator a message is for.
use vstd::prelude::*;
use vstd::string::StringSliceAdditionalSpecFns;
use vstd::utf8::encode_utf8;
use crate::framing::{concat, get_le, le_bytes, le_nat, put_le, slice_range, to_array32};
use crate::lib_common::{
    aead_keygen, aead_max_plaintext, c1_carries, carries_malformed, com_commit, com_open, commit_spec, copy_bytes,
    ct_eq_bytes, mac_keygen, mac_sign, mac_spec, mac_verify, mac_verify_spec, open_payload, open_spec,
    payload_read_ok, payload_spec, seal_payload, bytes_result, ReportError,
};
use crate::lib_gamal::{
    ct_logs, ct_valid, ell, opens_to, pre_dec, pre_dec_logs, pre_enc,
    pre_enc_logs, pre_enc_result, pre_re_enc, Ciphertext, HybridCiphertext, Point,
};
use crate::ristretto::{
    checked_invert, decompresses, is_point, mul_base, lemma_mul_inverse, point_mul, point_of, random_scalar,
    ristretto_log, scalar_inverse, scalar_is_zero, scalar_mul, scalar_of,
};

verus! {

/// What senders know of a moderator: the first public key, the second
/// public key and the re-encryption key from the first to the second.
pub type PublicKey = (Point, Point, [u8; 32]);

/// What the platform hands the recipient besides the encrypted tags: the
/// context and the ephemeral key.
pub type ProcessState = (Vec<u8>, Point);

/// What a recipient keeps: the franking key, the commitment, the context,
/// the encrypted tags and the re-encryption key for them.
pub type ReportDoc = ([u8; 32], Vec<u8>, Vec<u8>, HybridCiphertext, [u8; 32]);

/// What a recipient sends the moderator: the franking key, the commitment,
/// the context and the re-encrypted tags.
pub type Report = ([u8; 32], Vec<u8>, Vec<u8>, HybridCiphertext);

/// A moderator: the tagging key shared with the platform, the second secret
/// key, both public keys and the re-encryption key between them.
pub struct Moderator {
    pub sk_p: [u8; 32],
    pub sk_enc: [u8; 32],
    pub pk_enc_1: Point,
    pub pk_enc_2: Point,
    pub k1_2: [u8; 32],
}

/// The platform: the tagging key and second public key of every registered
/// moderator, by index.
pub struct Platform {
    pub sk_p: Vec<([u8; 32], Point)>,
}

/// A user, with the channel key shared with its peers.
pub struct Client {
    pub msg_key: [u8; 32],
}

/// Whether `(pk1, pk2, k1_2)` are consistent: both are points and `k1_2`
/// moves the first to the second.
pub open spec fn keys_consistent(pk1: Seq<u8>, pk2: Seq<u8>, k1_2: Seq<u8>) -> bool {
    is_point(pk1) && is_point(pk2) && (scalar_of(k1_2) * ristretto_log(pk1)) % ell() == ristretto_log(
        pk2,
    )
}

impl Moderator {
    /// Whether the keys fit together: the second public key belongs to the
    /// nonzero secret key, and the re-encryption key moves the first public
    /// key to the second.
    pub open spec fn wf(&self) -> bool {
        keys_consistent(self.pk_enc_1@, self.pk_enc_2@, self.k1_2@) && ristretto_log(self.pk_enc_2@)
            == scalar_of(self.sk_enc@) && scalar_of(self.sk_enc@) != 0
    }

    /// The moderator with the first secret key `x1`, the second secret key
    /// `x2` and the tagging key `sk_p`: `pk1 = x1·g`, `pk2 = x2·g` and
    /// `k1_2 = x2·x1⁻¹`. `Rng` when a secret key is zero.
    pub fn from_keys(x1: [u8; 32], x2: [u8; 32], sk_p: [u8; 32]) -> (m: Result<Moderator, ReportError>)
        ensures
            m is Ok <==> (scalar_of(x1@) != 0 && scalar_of(x2@) != 0),
            m matches Err(e) ==> e == ReportError::Rng,
            m matches Ok(m) ==> m.wf() && m.sk_enc == x2 && m.sk_p == sk_p && ristretto_log(m.pk_enc_1@)
                == scalar_of(x1@),
    {
        if scalar_is_zero(&x2) {
            return Err(ReportError::Rng);
        }
        let inv = match checked_invert(&x1) {
            Some(i) => i,
            None => {
                return Err(ReportError::Rng);
            },
        };
        let pk1 = mul_base(&x1);
        let pk2 = mul_base(&x2);
        let k1_2 = scalar_mul(&x2, &inv);
        proof {
            let l = ell();
            let a = scalar_of(x1@);
            let b = scalar_of(x2@);
            let xi = scalar_of(inv@);
            vstd::arithmetic::div_mod::lemma_small_mod(le_nat(k1_2@), l as nat);
            vstd::arithmetic::div_mod::lemma_mod_twice(le_nat(x2@) as int, l);
            lemma_mul_inverse(b, a, xi, l);
            assert((b * xi) * a == (b * a) * xi) by (nonlinear_arith);
            vstd::arithmetic::div_mod::lemma_mul_mod_noop_left(b * xi, a, l);
            vstd::arithmetic::div_mod::lemma_mul_mod_noop_left(b * a, xi, l);
        }
        Ok(Moderator { sk_p: sk_p, sk_enc: x2, pk_enc_1: pk1, pk_enc_2: pk2, k1_2: k1_2 })
    }

    /// A moderator with fresh keys. `Rng` when a secret key drawn is zero.
    pub fn new() -> (m: Result<Moderator, ReportError>)
        ensures
            m matches Ok(m) ==> m.wf(),
            m matches Err(e) ==> e == ReportError::Rng,
    {
        let x1 = random_scalar();
        let x2 = random_scalar();
        Self::from_keys(x1, x2, mac_keygen())
    }

    /// Judges a report on `message` as the moderator at index
    /// `moderator_id`: recovers the tags, takes its own slot and checks it
    /// and the commitment; the context on success. `Malformed` when the key
    /// is zero or the ciphertext's points are malformed; `Reject` otherwise.
    pub fn moderate(sk_enc: &[u8; 32], sk_p: &[u8; 32], moderator_id: usize, message: &str, report: &Report) -> (r: Result<
        Vec<u8>,
        ReportError,
    >)
        ensures
            !(scalar_of(sk_enc@) != 0 && ct_valid(report.3.0)) ==> r == Err::<Vec<u8>, ReportError>(
                ReportError::Malformed,
            ),
            r matches Ok(c) ==> c@ == report.2@ && exists|tau: Seq<u8>|
                #[trigger] mod_priv_moderate_ok(
                    sk_enc@,
                    sk_p@,
                    moderator_id as int,
                    message.spec_bytes(),
                    report,
                    tau,
                ),
            forall|tau: Seq<u8>|
                #[trigger] mod_priv_moderate_ok(
                    sk_enc@,
                    sk_p@,
                    moderator_id as int,
                    message.spec_bytes(),
                    report,
                    tau,
                ) ==> (r matches Ok(c) && c@ == report.2@),
            r matches Err(e) ==> (e == ReportError::Reject || e == ReportError::Malformed),
            bytes_result(r) == mod_priv_moderate_spec(
                sk_enc@,
                sk_p@,
                moderator_id as int,
                message.spec_bytes(),
                report,
            ),
    {
        let (k_f, c2, ctx, (ct, body, nonce)) = report;
        if scalar_is_zero(sk_enc) || !decompresses(&ct.0) || !decompresses(&ct.1) {
            return Err(ReportError::Malformed);
        }
        let tau = match pre_dec(sk_enc, &(*ct, copy_bytes(body.as_slice())), nonce) {
            Some(t) => t,
            None => {
                return Err(ReportError::Reject);
            },
        };
        if moderator_id >= tau.len() / 32 {
            return Err(ReportError::Reject);
        }
        let l = moderator_id * 32;
        let slot = slice_range(tau.as_slice(), l, l + 32);
        if !com_open(c2, message, k_f) {
            return Err(ReportError::Reject);
        }
        let msg = concat(c2.as_slice(), ctx.as_slice());
        if !mac_verify(sk_p, &msg, &slot) {
            return Err(ReportError::Reject);
        }
        proof {
            assert(mod_priv_moderate_ok(sk_enc@, sk_p@, moderator_id as int, message.spec_bytes(), report, tau@));
        }
        Ok(copy_bytes(ctx.as_slice()))
    }
}

/// The moderator's decision: `Malformed` when the key is zero or the
/// ciphertext's points are malformed; the context when some decrypted tag
/// vector makes the report acceptable; `Reject` otherwise.
pub open spec fn mod_priv_moderate_spec(
    sk: Seq<u8>,
    k_p: Seq<u8>,
    id: int,
    m: Seq<u8>,
    report: &Report,
) -> Result<Seq<u8>, ReportError> {
    if !(scalar_of(sk) != 0 && ct_valid(report.3.0)) {
        Err(ReportError::Malformed)
    } else if exists|tau: Seq<u8>| #[trigger] mod_priv_moderate_ok(sk, k_p, id, m, report, tau) {
        Ok(report.2@)
    } else {
        Err(ReportError::Reject)
    }
}

/// The point that proxy decryption with `sk` recovers from `ct`.
pub open spec fn recovered_point(sk: Seq<u8>, ct: Ciphertext) -> Seq<u8> {
    point_of(pre_dec_logs(scalar_inverse(scalar_of(sk)), ct_logs(ct)))
}

/// Whether the moderator with key `sk`, tagging key `k_p` and index `id`
/// accepts `report` on the message bytes `m`, the decrypted tag vector being
/// `tau`: the key is nonzero, the points are valid, the body opens to `tau`,
/// the slot `id` of `tau` is the tag of `(c2, ctx)` and `c2` opens to `m`.
pub open spec fn mod_priv_moderate_ok(
    sk: Seq<u8>,
    k_p: Seq<u8>,
    id: int,
    m: Seq<u8>,
    report: &Report,
    tau: Seq<u8>,
) -> bool {
    &&& scalar_of(sk) != 0
    &&& ct_valid(report.3.0)
    &&& opens_to(recovered_point(sk, report.3.0), report.3.2@, report.3.1@, tau)
    &&& 0 <= id && 32 * id + 32 <= tau.len()
    &&& open_spec(report.1@, m, report.0@)
    &&& mac_verify_spec(k_p, report.1@ + report.2@, tau.subrange(32 * id, 32 * id + 32))
}

/// The tags of `msg` under every tagging key of the registry, in order.
pub open spec fn tau_spec(ks: Seq<([u8; 32], Point)>, msg: Seq<u8>) -> Seq<u8>
    decreases ks.len(),
{
    if ks.len() == 0 {
        Seq::empty()
    } else {
        tau_spec(ks.drop_last(), msg) + mac_spec(ks.last().0@, msg)
    }
}

/// The tag vector has one 32-byte slot per moderator, and slot `i` holds the
/// tag under the `i`-th key.
pub proof fn lemma_tau_slot(ks: Seq<([u8; 32], Point)>, msg: Seq<u8>, i: int)
    requires
        0 <= i < ks.len(),
    ensures
        tau_spec(ks, msg).len() == 32 * ks.len(),
        tau_spec(ks, msg).subrange(32 * i, 32 * i + 32) == mac_spec(ks[i].0@, msg),
    decreases ks.len(),
{
    lemma_tau_len(ks, msg);
    let pre = ks.drop_last();
    lemma_tau_len(pre, msg);
    if i < ks.len() - 1 {
        lemma_tau_slot(pre, msg, i);
        assert(tau_spec(ks, msg).subrange(32 * i, 32 * i + 32) =~= tau_spec(pre, msg).subrange(
            32 * i,
            32 * i + 32,
        ));
    } else {
        assert(tau_spec(ks, msg).subrange(32 * i, 32 * i + 32) =~= mac_spec(ks[i].0@, msg));
    }
}

/// The tag vector has one 32-byte slot per moderator.
pub proof fn lemma_tau_len(ks: Seq<([u8; 32], Point)>, msg: Seq<u8>)
    ensures
        tau_spec(ks, msg).len() == 32 * ks.len(),
    decreases ks.len(),
{
    if ks.len() > 0 {
        lemma_tau_len(ks.drop_last(), msg);
    }
}

impl Platform {
    /// A platform with no moderator.
    pub fn new() -> (p: Platform)
        ensures
            p.sk_p@.len() == 0,
    {
        Platform { sk_p: Vec::new() }
    }

    /// Processes `(c2, ctx)` under the ephemeral key `ad`: tags it for every
    /// registered moderator and proxy-encrypts the tag vector under `ad`.
    /// `Malformed` when `ad` is not a point or the vector is too long.
    pub fn process(
        ks: &Vec<([u8; 32], Point)>,
        _c1: &Vec<u8>,
        c2: &Vec<u8>,
        ad: &Point,
        ctx: &Vec<u8>,
    ) -> (res: Result<(HybridCiphertext, ProcessState), ReportError>)
        ensures
            res is Ok <==> is_point(ad@) && 32 * ks@.len() <= aead_max_plaintext(),
            res matches Err(e) ==> e == ReportError::Malformed,
            res matches Ok((sigma, st)) ==> pre_enc_result(ad@, tau_spec(ks@, c2@ + ctx@), sigma)
                && st.0@ == ctx@ && st.1 == *ad,
    {
        if ks.len() > 0x8000_0000 {
            return Err(ReportError::Malformed);
        }
        let to_sign = concat(c2.as_slice(), ctx.as_slice());
        let mut tau: Vec<u8> = Vec::new();
        let mut i: usize = 0;
        while i < ks.len()
            invariant
                0 <= i <= ks@.len() <= 0x8000_0000,
                tau@ == tau_spec(ks@.subrange(0, i as int), to_sign@),
            decreases ks@.len() - i,
        {
            let t = mac_sign(&ks[i].0, &to_sign);
            tau.extend_from_slice(t.as_slice());
            proof {
                let next = ks@.subrange(0, i + 1);
                assert(next.drop_last() =~= ks@.subrange(0, i as int));
            }
            i = i + 1;
        }
        proof {
            assert(ks@.subrange(0, ks@.len() as int) =~= ks@);
            lemma_tau_len(ks@, to_sign@);
        }
        let sigma = match pre_enc(ad, &tau) {
            Some(h) => h,
            None => {
                return Err(ReportError::Malformed);
            },
        };
        Ok((sigma, (copy_bytes(ctx.as_slice()), *ad)))
    }
}

/// The tail of the payload: the moderator index (4 little-endian bytes),
/// the franking key and the recipient's re-encryption key.
pub open spec fn mp_tail(id: u32, k_f: Seq<u8>, k_r: Seq<u8>) -> Seq<u8> {
    le_bytes(id as nat, 4) + k_f + k_r
}

/// Whether reading `(c1, c2)` under `msg_key` may yield the message `m` for
/// the moderator `id`, with the franking key `k_f` and the re-encryption key
/// `k_r`: `c1` carries them and `c2` opens to `m` under `k_f`.
pub open spec fn mp_read_ok(
    msg_key: Seq<u8>,
    c1: Seq<u8>,
    c2: Seq<u8>,
    m: Seq<char>,
    id: u32,
    k_f: Seq<u8>,
    k_r: Seq<u8>,
) -> bool {
    k_f.len() == 32 && k_r.len() == 32 && payload_read_ok(msg_key, c1, m, mp_tail(id, k_f, k_r))
        && open_spec(c2, encode_utf8(m), k_f)
}

/// The reportability check: `k_r` moves the ephemeral key `epk` onto the
/// moderator's second public key `pk2`.
pub open spec fn reportable(k_r: Seq<u8>, epk: Seq<u8>, pk2: Seq<u8>) -> bool {
    is_point(epk) && is_point(pk2) && (scalar_of(k_r) * ristretto_log(epk)) % ell() == ristretto_log(
        pk2,
    )
}

/// What sending with the masking scalar `s` produces for the moderator keys
/// `(pk1, k1_2)`: the ephemeral key `s·pk1`, and a payload whose
/// re-encryption key is `k1_2·s⁻¹`.
pub open spec fn mp_sent(
    msg_key: Seq<u8>,
    m: Seq<u8>,
    id: u32,
    pk1: Seq<u8>,
    k1_2: Seq<u8>,
    s: int,
    k_f: Seq<u8>,
    c1: Seq<u8>,
    c2: Seq<u8>,
    epk: Seq<u8>,
) -> bool {
    &&& is_point(epk)
    &&& ristretto_log(epk) == (s * ristretto_log(pk1)) % ell()
    &&& exists|k_r: Seq<u8>|
        k_r.len() == 32 && scalar_of(k_r) == (scalar_of(k1_2) * scalar_inverse(s)) % ell()
            && #[trigger] c1_carries(msg_key, c1, payload_spec(m, mp_tail(id, k_f, k_r)))
    &&& c2 == commit_spec(k_f, m)
}

/// The checks that Read makes once the payload is decrypted and the
/// commitment opens: `Invariant` when the moderator index is outside `pks`,
/// `Malformed` when the ephemeral key or the moderator's second key is not a
/// point, `Reject` when the reportability check fails.
pub open spec fn mp_read_check(pks: Seq<PublicKey>, epk: Seq<u8>, id: u32, k_r: Seq<u8>) -> Result<
    (),
    ReportError,
> {
    if id >= pks.len() {
        Err(ReportError::Invariant)
    } else if !(is_point(epk) && is_point(pks[id as int].1@)) {
        Err(ReportError::Malformed)
    } else if !reportable(k_r, epk, pks[id as int].1@) {
        Err(ReportError::Reject)
    } else {
        Ok(())
    }
}

impl Client {
    /// A client with a fresh channel key.
    pub fn new() -> (c: Client) {
        Client { msg_key: aead_keygen() }
    }

    /// Franked encryption of `message` for the moderator `moderator_id`,
    /// with the re-encryption key `k_r` and the franking key `k_f`.
    pub fn ccae_enc_with(
        msg_key: &[u8; 32],
        message: &str,
        moderator_id: u32,
        k_r: [u8; 32],
        k_f: [u8; 32],
    ) -> (r: Result<(Vec<u8>, Vec<u8>), ReportError>)
        ensures
            r is Ok <==> payload_spec(message.spec_bytes(), mp_tail(moderator_id, k_f@, k_r@)).len()
                <= aead_max_plaintext(),
            r matches Err(e) ==> e == ReportError::Malformed,
            r matches Ok((c1, c2)) ==> c1_carries(
                msg_key@,
                c1@,
                payload_spec(message.spec_bytes(), mp_tail(moderator_id, k_f@, k_r@)),
            ) && c2@ == commit_spec(k_f@, message.spec_bytes()),
    {
        let c2 = com_commit(&k_f, message);
        let mut tail: Vec<u8> = Vec::new();
        put_le(&mut tail, moderator_id as u64, 4);
        tail.extend_from_slice(&k_f);
        tail.extend_from_slice(&k_r);
        assert(tail@ =~= mp_tail(moderator_id, k_f@, k_r@));
        let c1 = seal_payload(msg_key, message, tail.as_slice())?;
        Ok((c1, c2))
    }

    /// Franked encryption with a fresh franking key.
    pub fn ccae_enc(msg_key: &[u8; 32], message: &str, moderator_id: u32, k_r: [u8; 32]) -> (r: Result<
        (Vec<u8>, Vec<u8>),
        ReportError,
    >)
        ensures
            r is Ok <==> message.spec_bytes().len() + 76 <= aead_max_plaintext(),
            r matches Err(e) ==> e == ReportError::Malformed,
            r matches Ok((c1, c2)) ==> exists|k_f: Seq<u8>|
                k_f.len() == 32 && #[trigger] c1_carries(
                    msg_key@,
                    c1@,
                    payload_spec(message.spec_bytes(), mp_tail(moderator_id, k_f, k_r@)),
                ) && c2@ == commit_spec(k_f, message.spec_bytes()),
    {
        let k_f = mac_keygen();
        proof {
            crate::framing::lemma_le_bytes_len(message.spec_bytes().len(), 8);
            crate::framing::lemma_le_bytes_len(moderator_id as nat, 4);
        }
        let r = Self::ccae_enc_with(msg_key, message, moderator_id, k_r, k_f);
        proof {
            if r is Ok {
                assert(c1_carries(
                    msg_key@,
                    r->Ok_0.0@,
                    payload_spec(message.spec_bytes(), mp_tail(moderator_id, k_f@, k_r@)),
                ));
            }
        }
        r
    }

    /// Franked decryption: the message, moderator index, franking key and
    /// re-encryption key that `c1` carries, once `c2` opens.
    pub fn ccae_dec(msg_key: &[u8; 32], c1: &Vec<u8>, c2: &Vec<u8>) -> (r: Result<
        (String, u32, [u8; 32], [u8; 32]),
        ReportError,
    >)
        ensures
            r matches Ok((m, id, k_f, k_r)) ==> mp_read_ok(msg_key@, c1@, c2@, m@, id, k_f@, k_r@),
            forall|m: Seq<char>, id: u32, k_f: Seq<u8>, k_r: Seq<u8>|
                #[trigger] mp_read_ok(msg_key@, c1@, c2@, m, id, k_f, k_r) ==> (r matches Ok(
                    (m2, id2, k_f2, k_r2),
                ) && m2@ == m && id2 == id && k_f2@ == k_f && k_r2@ == k_r),
            r matches Err(e) ==> (e == ReportError::Reject || e == ReportError::Malformed),
            r matches Err(e) ==> (e == ReportError::Malformed <==> carries_malformed(msg_key@, c1@, 68)),
            carries_malformed(msg_key@, c1@, 68) ==> r is Err,
    {
        proof {
            assert forall|id: u32, k_f: Seq<u8>, k_r: Seq<u8>|
                k_f.len() == 32 && k_r.len() == 32 implies #[trigger] mp_tail(id, k_f, k_r).len()
                == 68 by {
                crate::framing::lemma_le_bytes_len(id as nat, 4);
            }
        }
        let (m, tail) = open_payload(msg_key, c1, 68)?;
        let id64 = get_le(tail.as_slice(), 0, 4);
        proof {
            reveal_with_fuel(crate::framing::pow256, 5);
            crate::framing::lemma_le_nat_bound(tail@.subrange(0, 4));
        }
        let id = id64 as u32;
        let k_f = slice_range(tail.as_slice(), 4, 36);
        let k_r = slice_range(tail.as_slice(), 36, 68);
        proof {
            reveal_with_fuel(crate::framing::pow256, 5);
            crate::framing::lemma_le_bytes_le_nat(tail@.subrange(0, 4));
            assert(tail@ =~= mp_tail(id, k_f@, k_r@));
            assert forall|m2: Seq<char>, id2: u32, k_f2: Seq<u8>, k_r2: Seq<u8>|
                #[trigger] mp_read_ok(msg_key@, c1@, c2@, m2, id2, k_f2, k_r2) implies id2 == id
                && k_f2 == k_f@ && k_r2 == k_r@ by {
                crate::framing::lemma_le_bytes_len(id2 as nat, 4);
                crate::framing::lemma_le_nat_le_bytes(id2 as nat, 4);
                assert(mp_tail(id2, k_f2, k_r2).subrange(0, 4) =~= le_bytes(id2 as nat, 4));
                assert(mp_tail(id2, k_f2, k_r2).subrange(4, 36) =~= k_f2);
                assert(mp_tail(id2, k_f2, k_r2).subrange(36, 68) =~= k_r2);
            }
        }
        if !com_open(c2, m.as_str(), k_f.as_slice()) {
            return Err(ReportError::Reject);
        }
        Ok((m, id, to_array32(k_f.as_slice()), to_array32(k_r.as_slice())))
    }

    /// Sends `message` for the moderator `moderator_id` with public keys
    /// `pk_i`, using the masking scalar `s` and the franking key `k_f`.
    /// `Malformed` when `pk1` is not a point or the message is too long;
    /// `Rng` when `s` is zero.
    pub fn send_with(
        msg_key: &[u8; 32],
        message: &str,
        moderator_id: u32,
        pk_i: &PublicKey,
        s: &[u8; 32],
        k_f: [u8; 32],
    ) -> (r: Result<(Vec<u8>, Vec<u8>, Point), ReportError>)
        ensures
            r is Ok <==> is_point(pk_i.0@) && scalar_of(s@) != 0 && message.spec_bytes().len() + 76
                <= aead_max_plaintext(),
            r matches Err(e) ==> (e == ReportError::Malformed || e == ReportError::Rng),
            r matches Ok((c1, c2, epk)) ==> mp_sent(
                msg_key@,
                message.spec_bytes(),
                moderator_id,
                pk_i.0@,
                pk_i.2@,
                scalar_of(s@),
                k_f@,
                c1@,
                c2@,
                epk@,
            ),
    {
        let (pk1, _pk2, k1_2) = pk_i;
        let epk = match point_mul(s, pk1) {
            Some(p) => p,
            None => {
                return Err(ReportError::Malformed);
            },
        };
        let s_inv = match checked_invert(s) {
            Some(i) => i,
            None => {
                return Err(ReportError::Rng);
            },
        };
        let k_r = scalar_mul(k1_2, &s_inv);
        proof {
            crate::framing::lemma_le_bytes_len(message.spec_bytes().len(), 8);
            crate::framing::lemma_le_bytes_len(moderator_id as nat, 4);
        }
        let (c1, c2) = Self::ccae_enc_with(msg_key, message, moderator_id, k_r, k_f)?;
        proof {
            vstd::arithmetic::div_mod::lemma_small_mod(le_nat(k_r@), ell() as nat);
            assert(c1_carries(msg_key@, c1@, payload_spec(message.spec_bytes(), mp_tail(moderator_id, k_f@, k_r@))));
        }
        Ok((c1, c2, epk))
    }

    /// Sends `message` for the moderator `moderator_id` with a fresh masking
    /// scalar and franking key.
    pub fn send(msg_key: &[u8; 32], message: &str, moderator_id: u32, pk_i: &PublicKey) -> (r: Result<
        (Vec<u8>, Vec<u8>, Point),
        ReportError,
    >)
        ensures
            r is Ok ==> is_point(pk_i.0@),
            !is_point(pk_i.0@) || message.spec_bytes().len() + 76 > aead_max_plaintext() ==> r is Err,
            r matches Err(e) ==> (e == ReportError::Malformed || e == ReportError::Rng),
            r matches Ok((c1, c2, epk)) ==> exists|s: int, k_f: Seq<u8>|
                #[trigger] mp_sent(
                    msg_key@,
                    message.spec_bytes(),
                    moderator_id,
                    pk_i.0@,
                    pk_i.2@,
                    s,
                    k_f,
                    c1@,
                    c2@,
                    epk@,
                ) && s != 0,
    {
        let s = random_scalar();
        let k_f = mac_keygen();
        let r = Self::send_with(msg_key, message, moderator_id, pk_i, &s, k_f);
        proof {
            if r is Ok {
                let (c1, c2, epk) = r->Ok_0;
                assert(mp_sent(
                    msg_key@,
                    message.spec_bytes(),
                    moderator_id,
                    pk_i.0@,
                    pk_i.2@,
                    scalar_of(s@),
                    k_f@,
                    c1@,
                    c2@,
                    epk@,
                ));
            }
        }
        r
    }

    /// Reads a processed message: decrypts and opens it, checks that it is
    /// reportable to the moderator it names, and keeps the report document.
    /// `Invariant` when the named moderator is outside `pks`; `Reject` when
    /// the reportability check fails.
    pub fn read(
        msg_key: &[u8; 32],
        pks: &Vec<PublicKey>,
        c1: &Vec<u8>,
        c2: &Vec<u8>,
        sigma: &HybridCiphertext,
        st: &ProcessState,
    ) -> (r: Result<(String, u32, ReportDoc), ReportError>)
        ensures
            r matches Ok((m, id, rd)) ==> id < pks@.len() && mp_read_ok(
                msg_key@,
                c1@,
                c2@,
                m@,
                id,
                rd.0@,
                rd.4@,
            ) && reportable(rd.4@, st.1@, pks@[id as int].1@) && rd.1@ == c2@ && rd.2@ == st.0@
                && rd.3.0 == sigma.0 && rd.3.1@ == sigma.1@ && rd.3.2 == sigma.2,
            forall|m: Seq<char>, id: u32, k_f: Seq<u8>, k_r: Seq<u8>|
                #[trigger] mp_read_ok(msg_key@, c1@, c2@, m, id, k_f, k_r) && id < pks@.len()
                    && reportable(k_r, st.1@, pks@[id as int].1@) ==> (r matches Ok((m2, id2, rd))
                    && m2@ == m && id2 == id && rd.0@ == k_f && rd.4@ == k_r),
            r matches Err(e) ==> (e == ReportError::Reject || e == ReportError::Malformed || e
                == ReportError::Invariant),
            forall|m: Seq<char>, id: u32, k_f: Seq<u8>, k_r: Seq<u8>|
                #[trigger] mp_read_ok(msg_key@, c1@, c2@, m, id, k_f, k_r) && mp_read_check(
                    pks@,
                    st.1@,
                    id,
                    k_r,
                ) is Err ==> (r matches Err(e) && mp_read_check(pks@, st.1@, id, k_r) == Err::<
                    (),
                    ReportError,
                >(e)),
            carries_malformed(msg_key@, c1@, 68) ==> (r matches Err(e) && e == ReportError::Malformed),
            (forall|m: Seq<char>, id: u32, k_f: Seq<u8>, k_r: Seq<u8>|
                !#[trigger] mp_read_ok(msg_key@, c1@, c2@, m, id, k_f, k_r)) && !carries_malformed(
                msg_key@,
                c1@,
                68,
            ) ==> (r matches Err(e) && e == ReportError::Reject),
    {
        let (ctx, epk) = st;
        let (message, moderator_id, k_f, k_r) = Self::ccae_dec(msg_key, c1, c2)?;
        if moderator_id as usize >= pks.len() {
            return Err(ReportError::Invariant);
        }
        let pk2 = pks[moderator_id as usize].1;
        let moved = match point_mul(&k_r, epk) {
            Some(p) => p,
            None => {
                return Err(ReportError::Malformed);
            },
        };
        if !decompresses(&pk2) {
            return Err(ReportError::Malformed);
        }
        proof {
            vstd::arithmetic::div_mod::lemma_mod_twice(scalar_of(k_r@) * ristretto_log(epk@), ell());
            crate::ristretto::lemma_point_eq(moved@, pk2@);
        }
        if !ct_eq_bytes(&moved, &pk2) {
            return Err(ReportError::Reject);
        }
        let rd: ReportDoc = (
            k_f,
            copy_bytes(c2.as_slice()),
            copy_bytes(ctx.as_slice()),
            (sigma.0, copy_bytes(sigma.1.as_slice()), sigma.2),
            k_r,
        );
        Ok((message, moderator_id, rd))
    }

    /// Builds the report: the encrypted tags are re-encrypted with the
    /// recipient's re-encryption key, towards the moderator's second key.
    /// `Malformed` when the ciphertext's second point is malformed.
    pub fn report_gen(_msg: &String, rd: &ReportDoc) -> (r: Result<Report, ReportError>)
        ensures
            r is Ok <==> is_point(rd.3.0.1@),
            r matches Err(e) ==> e == ReportError::Malformed,
            r matches Ok(rep) ==> rep.0 == rd.0 && rep.1@ == rd.1@ && rep.2@ == rd.2@ && rep.3.0.0
                == rd.3.0.0 && is_point(rep.3.0.1@) && ristretto_log(rep.3.0.1@) == (scalar_of(rd.4@)
                * ristretto_log(rd.3.0.1@)) % ell() && rep.3.1@ == rd.3.1@ && rep.3.2 == rd.3.2,
    {
        let (k_f, c2, ctx, (ct, body, nonce), k_r) = rd;
        let ct2 = match pre_re_enc(ct, k_r) {
            Some(c) => c,
            None => {
                return Err(ReportError::Malformed);
            },
        };
        Ok((*k_f, copy_bytes(c2.as_slice()), copy_bytes(ctx.as_slice()), (ct2, copy_bytes(body.as_slice()), *nonce)))
    }
}

/// A platform with an empty registry.
pub fn test_setup_platform() -> (platform: Platform)
    ensures
        platform.sk_p@.len() == 0,
{
    Platform::new()
}

/// Whether the registry `after` is `before` followed by the tagging keys and
/// second public keys of the `n` well-formed moderators `mods`, and `pks`
/// holds their public keys, in the same order.
pub open spec fn registered(
    before: Seq<([u8; 32], Point)>,
    after: Seq<([u8; 32], Point)>,
    mods: Seq<Moderator>,
    pks: Seq<PublicKey>,
    n: int,
) -> bool {
    &&& mods.len() == n
    &&& pks.len() == n
    &&& after.len() == before.len() + n
    &&& forall|i: int|
        0 <= i < n ==> (#[trigger] mods[i]).wf() && after[before.len() + i] == (mods[i].sk_p, mods[i].pk_enc_2)
            && pks[i] == (mods[i].pk_enc_1, mods[i].pk_enc_2, mods[i].k1_2)
}

/// Whether both secret keys of each key triple `(x1, x2, sk_p)` are nonzero.
pub open spec fn keys_usable(keys: Seq<([u8; 32], [u8; 32], [u8; 32])>) -> bool {
    forall|i: int| 0 <= i < keys.len() ==> scalar_of(#[trigger] keys[i].0@) != 0 && scalar_of(keys[i].1@) != 0
}

/// Makes one moderator per key triple `(x1, x2, sk_p)` and registers each
/// with the platform, in order: the registry gains their tagging keys and
/// second public keys, and senders get their public keys. `Rng` when a
/// secret key is zero; the moderators made before it stay registered.
pub fn test_setup_mod_with(platform: &mut Platform, keys: &Vec<([u8; 32], [u8; 32], [u8; 32])>) -> (r: Result<
    (Vec<Moderator>, Vec<PublicKey>),
    ReportError,
>)
    ensures
        forall|i: int| 0 <= i < old(platform).sk_p@.len() ==> final(platform).sk_p@[i] == old(platform).sk_p@[i],
        final(platform).sk_p@.len() >= old(platform).sk_p@.len(),
        r is Ok <==> keys_usable(keys@),
        r matches Err(e) ==> e == ReportError::Rng,
        r matches Ok((mods, pks)) ==> registered(
            old(platform).sk_p@,
            final(platform).sk_p@,
            mods@,
            pks@,
            keys@.len() as int,
        ),
        r matches Ok((mods, pks)) ==> forall|i: int|
            0 <= i < keys@.len() ==> mods@[i].sk_enc == keys@[i].1 && mods@[i].sk_p == keys@[i].2
                && ristretto_log(mods@[i].pk_enc_1@) == scalar_of(keys@[i].0@),
{
    let ghost start = platform.sk_p@;
    let n = keys.len();
    let mut moderators: Vec<Moderator> = Vec::with_capacity(n);
    let mut pks: Vec<PublicKey> = Vec::with_capacity(n);
    let mut i: usize = 0;
    while i < n
        invariant
            0 <= i <= n == keys@.len(),
            moderators@.len() == i && pks@.len() == i,
            platform.sk_p@.len() == start.len() + i,
            start == old(platform).sk_p@,
            forall|j: int| 0 <= j < start.len() ==> platform.sk_p@[j] == start[j],
            forall|j: int| 0 <= j < i ==> scalar_of(#[trigger] keys@[j].0@) != 0 && scalar_of(keys@[j].1@) != 0,
            forall|j: int| 0 <= j < i ==> #[trigger] moderators@[j].wf(),
            forall|j: int|
                0 <= j < i ==> (#[trigger] moderators@[j]).sk_enc == keys@[j].1 && moderators@[j].sk_p
                    == keys@[j].2 && ristretto_log(moderators@[j].pk_enc_1@) == scalar_of(keys@[j].0@),
            forall|j: int|
                0 <= j < i ==> platform.sk_p@[start.len() + j] == (
                    #[trigger] moderators@[j].sk_p,
                    moderators@[j].pk_enc_2,
                ),
            forall|j: int|
                0 <= j < i ==> #[trigger] pks@[j] == (
                    moderators@[j].pk_enc_1,
                    moderators@[j].pk_enc_2,
                    moderators@[j].k1_2,
                ),
        decreases n - i,
    {
        let (x1, x2, sk_p) = keys[i];
        let moderator = Moderator::from_keys(x1, x2, sk_p)?;
        platform.sk_p.push((moderator.sk_p, moderator.pk_enc_2));
        pks.push((moderator.pk_enc_1, moderator.pk_enc_2, moderator.k1_2));
        moderators.push(moderator);
        i = i + 1;
    }
    Ok((moderators, pks))
}

/// Creates `num_moderators` moderators with fresh keys and registers each
/// with the platform, as `test_setup_mod_with`. `Rng` when a key drawn is
/// zero.
pub fn test_setup_mod(platform: &mut Platform, num_moderators: usize) -> (r: Result<
    (Vec<Moderator>, Vec<PublicKey>),
    ReportError,
>)
    ensures
        forall|i: int| 0 <= i < old(platform).sk_p@.len() ==> final(platform).sk_p@[i] == old(platform).sk_p@[i],
        final(platform).sk_p@.len() >= old(platform).sk_p@.len(),
        r matches Err(e) ==> e == ReportError::Rng,
        r matches Ok((mods, pks)) ==> registered(
            old(platform).sk_p@,
            final(platform).sk_p@,
            mods@,
            pks@,
            num_moderators as int,
        ),
{
    let mut keys: Vec<([u8; 32], [u8; 32], [u8; 32])> = Vec::with_capacity(num_moderators);
    let mut i: usize = 0;
    while i < num_moderators
        invariant
            0 <= i <= num_moderators,
            keys@.len() == i,
            platform.sk_p@ == old(platform).sk_p@,
        decreases num_moderators - i,
    {
        keys.push((random_scalar(), random_scalar(), mac_keygen()));
        i = i + 1;
    }
    test_setup_mod_with(platform, &keys)
}

/// `num_clients` clients, each with a fresh channel key.
pub fn test_init_clients(num_clients: usize) -> (clients: Vec<Client>)
    ensures
        clients@.len() == num_clients,
{
    let mut clients: Vec<Client> = Vec::with_capacity(num_clients);
    let mut i: usize = 0;
    while i < num_clients
        invariant
            0 <= i <= num_clients,
            clients@.len() == i,
        decreases num_clients - i,
    {
        clients.push(Client::new());
        i = i + 1;
    }
    clients
}

/// The reportability check passes for what an honest sender produces: the
/// re-encryption key `k1_2·s⁻¹` moves the ephemeral key `s·pk1` onto `pk2`.
pub proof fn lemma_reportable(
    pk1: Seq<u8>,
    pk2: Seq<u8>,
    k1_2: Seq<u8>,
    s: int,
    s_inv: int,
    k_r: Seq<u8>,
    epk: Seq<u8>,
)
    requires
        keys_consistent(pk1, pk2, k1_2),
        (s_inv * s) % ell() == 1,
        is_point(epk),
        ristretto_log(epk) == (s * ristretto_log(pk1)) % ell(),
        scalar_of(k_r) == (scalar_of(k1_2) * s_inv) % ell(),
    ensures
        reportable(k_r, epk, pk2),
{
    let l = ell();
    let k = scalar_of(k1_2);
    let p1 = ristretto_log(pk1);
    // (k·s_inv)·(s·p1) = (k·p1)·(s_inv·s)
    vstd::arithmetic::div_mod::lemma_mul_mod_noop_general(k * s_inv, s * p1, l);
    assert((k * s_inv) * (s * p1) == ((k * p1) * s) * s_inv) by (nonlinear_arith);
    lemma_mul_inverse(k * p1, s, s_inv, l);
    vstd::arithmetic::div_mod::lemma_mul_mod_noop_left((k * p1) * s, s_inv, l);
}

/// Proxy decryption with `sk`, after re-encryption with a key `k_r` that
/// moves `epk` onto `sk·g`, recovers the point that was encrypted under
/// `epk`.
pub proof fn lemma_recover_after_reenc(
    sk: Seq<u8>,
    sk_inv: int,
    k_r: Seq<u8>,
    epk: Seq<u8>,
    p: Seq<u8>,
    rr: int,
    ct: Ciphertext,
    ct2: Ciphertext,
)
    requires
        0 <= sk_inv < ell(),
        (sk_inv * scalar_of(sk)) % ell() == 1,
        (scalar_of(k_r) * ristretto_log(epk)) % ell() == scalar_of(sk),
        is_point(p),
        ct_logs(ct) == pre_enc_logs(ristretto_log(epk), ristretto_log(p), rr),
        ct2.0 == ct.0,
        ristretto_log(ct2.1@) == (scalar_of(k_r) * ristretto_log(ct.1@)) % ell(),
    ensures
        recovered_point(sk, ct2) == p,
{
    let l = ell();
    let x2 = scalar_of(sk);
    let kr = scalar_of(k_r);
    let e = ristretto_log(epk);
    crate::ristretto::lemma_scalar_inverse(sk_inv, x2);
    // kr·(rr·e) = rr·x2
    vstd::arithmetic::div_mod::lemma_mul_mod_noop_right(kr, rr * e, l);
    assert(kr * (rr * e) == rr * (kr * e)) by (nonlinear_arith);
    vstd::arithmetic::div_mod::lemma_mul_mod_noop_right(rr, kr * e, l);
    let c = (rr * x2) % l;
    assert(ristretto_log(ct2.1@) == c);
    // sk_inv·(rr·x2) = rr
    lemma_mul_inverse(rr, x2, sk_inv, l);
    assert(c * sk_inv == sk_inv * c) by (nonlinear_arith);
    let a = (rr + ristretto_log(p)) % l;
    let b = sk_inv * c;
    vstd::arithmetic::div_mod::lemma_sub_mod_noop(a, b, l);
    vstd::arithmetic::div_mod::lemma_mod_twice(rr + ristretto_log(p), l);
    vstd::arithmetic::div_mod::lemma_sub_mod_noop(rr + ristretto_log(p), rr, l);
    vstd::arithmetic::div_mod::lemma_small_mod(ristretto_log(p) as nat, l as nat);
    assert(pre_dec_logs(sk_inv, ct_logs(ct2)) == ristretto_log(p));
}

/// A message sent for a moderator with consistent keys, processed by a
/// platform whose registry holds that moderator's tagging key at its index,
/// read and reported, is accepted by that moderator.
pub proof fn lemma_mod_priv_round_trip(
    pk1: Seq<u8>,
    pk2: Seq<u8>,
    k1_2: Seq<u8>,
    sk: Seq<u8>,
    sk_inv: int,
    ks: Seq<([u8; 32], Point)>,
    id: int,
    m: Seq<u8>,
    s: int,
    s_inv: int,
    k_r: Seq<u8>,
    epk: Seq<u8>,
    sigma: HybridCiphertext,
    report: Report,
)
    requires
        keys_consistent(pk1, pk2, k1_2),
        ristretto_log(pk2) == scalar_of(sk),
        0 <= sk_inv < ell(),
        (sk_inv * scalar_of(sk)) % ell() == 1,
        0 <= id < ks.len(),
        (s_inv * s) % ell() == 1,
        is_point(epk),
        ristretto_log(epk) == (s * ristretto_log(pk1)) % ell(),
        scalar_of(k_r) == (scalar_of(k1_2) * s_inv) % ell(),
        report.1@ == commit_spec(report.0@, m),
        pre_enc_result(epk, tau_spec(ks, report.1@ + report.2@), sigma),
        report.3.0.0 == sigma.0.0,
        is_point(report.3.0.1@),
        ristretto_log(report.3.0.1@) == (scalar_of(k_r) * ristretto_log(sigma.0.1@)) % ell(),
        report.3.1@ == sigma.1@,
        report.3.2 == sigma.2,
    ensures
        reportable(k_r, epk, pk2),
        mod_priv_moderate_ok(sk, ks[id].0@, id, m, &report, tau_spec(ks, report.1@ + report.2@)),
        mod_priv_moderate_spec(sk, ks[id].0@, id, m, &report) == Ok::<Seq<u8>, ReportError>(report.2@),
{
    lemma_reportable(pk1, pk2, k1_2, s, s_inv, k_r, epk);
    let tau = tau_spec(ks, report.1@ + report.2@);
    let (p, rr) = choose|p: Seq<u8>, rr: int|
        is_point(p) && ct_logs(sigma.0) == #[trigger] pre_enc_logs(
            ristretto_log(epk),
            ristretto_log(p),
            rr,
        ) && #[trigger] opens_to(p, sigma.2@, sigma.1@, tau);
    lemma_recover_after_reenc(sk, sk_inv, k_r, epk, p, rr, sigma.0, report.3.0);
    lemma_tau_slot(ks, report.1@ + report.2@, id);
    assert(ct_valid(report.3.0));
    let x2 = scalar_of(sk);
    if x2 == 0 {
        assert(sk_inv * x2 == 0) by (nonlinear_arith)
            requires
                x2 == 0,
        ;
        vstd::arithmetic::div_mod::lemma_small_mod(0, ell() as nat);
    }
    assert(mod_priv_moderate_ok(sk, ks[id].0@, id, m, &report, tau));
}

} // verus!
