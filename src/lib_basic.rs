//! The basic scheme: the platform knows every moderator and which one a
//! message is for; it tags the message for that moderator and encrypts the
//! tag, hashed to a point, under the moderator's ElGamal key.
use vstd::prelude::*;
use vstd::string::StringSliceAdditionalSpecFns;
use vstd::utf8::encode_utf8;
use crate::framing::concat;
use crate::lib_common::{
    aead_keygen, aead_max_plaintext, c1_carries, carries_malformed, carries_nothing, com_commit,
    com_open, commit_spec, copy_bytes, ct_eq_bytes, franked_read_ok, franked_sent, hmac_sha512_of, mac_64_keygen,
    mac_64_sign, mac_keygen, open_payload, open_spec, payload_spec, seal_payload, bytes_result,
    ReportError,
};
use crate::framing::to_array32;
use crate::lib_gamal::{
    ct_logs, ct_valid, elgamal_dec, elgamal_dec_logs, elgamal_enc_logs, elgamal_enc_with,
    elgamal_keygen, ell, Ciphertext, Point,
};
use crate::ristretto::{
    hash_to_point, is_point, random_scalar, ristretto_hash_of, ristretto_log, scalar_of,
};

verus! {

/// What a recipient keeps to report a message: the franking key, the
/// commitment, the context and the encrypted tag.
pub type Report = ([u8; 32], Vec<u8>, Vec<u8>, Ciphertext);

/// A moderator: the 64-byte tagging key shared with the platform and an
/// ElGamal key pair.
pub struct Moderator {
    pub sk_p: [u8; 64],
    pub sk_enc: [u8; 32],
    pub pk_enc: Point,
}

/// The platform: the tagging key and public key of every registered
/// moderator, by index.
pub struct Platform {
    pub sk_p: Vec<([u8; 64], Point)>,
}

/// A user, with the channel key shared with its peers.
pub struct Client {
    pub msg_key: [u8; 32],
}

/// The logarithm of the point that the tag of `(c2, ctx)` under `k_p` hashes
/// to.
pub open spec fn tag_point_log(k_p: Seq<u8>, c2: Seq<u8>, ctx: Seq<u8>) -> int {
    ristretto_log(ristretto_hash_of(hmac_sha512_of(k_p, c2 + ctx)@)) % ell()
}

/// The moderator's decision: `Malformed` when the encrypted tag is not two
/// points; `Reject` when the commitment does not open or the decrypted
/// point is not the hashed tag; else the context.
pub open spec fn basic_moderate_spec(
    sk: Seq<u8>,
    k_p: Seq<u8>,
    m: Seq<u8>,
    k_f: Seq<u8>,
    c2: Seq<u8>,
    ctx: Seq<u8>,
    ct: Ciphertext,
) -> Result<Seq<u8>, ReportError> {
    if !ct_valid(ct) {
        Err(ReportError::Malformed)
    } else if !open_spec(c2, m, k_f) {
        Err(ReportError::Reject)
    } else if elgamal_dec_logs(scalar_of(sk), ct_logs(ct)) != tag_point_log(k_p, c2, ctx) {
        Err(ReportError::Reject)
    } else {
        Ok(ctx)
    }
}

impl Moderator {
    /// Whether the public key belongs to the secret key.
    pub open spec fn wf(&self) -> bool {
        is_point(self.pk_enc@) && ristretto_log(self.pk_enc@) == scalar_of(self.sk_enc@)
    }

    /// A moderator with fresh keys.
    pub fn new() -> (m: Moderator)
        ensures
            m.wf(),
    {
        let keys = elgamal_keygen();
        Moderator { sk_p: mac_64_keygen(), sk_enc: keys.0, pk_enc: keys.1 }
    }

    /// Judges a report on `message`: decrypts the tag point, opens the
    /// commitment and recomputes the hashed tag; the context on success.
    pub fn moderate(sk_enc: &[u8; 32], sk_p: &[u8; 64], message: &str, report: &Report) -> (r: Result<
        Vec<u8>,
        ReportError,
    >)
        ensures
            bytes_result(r) == basic_moderate_spec(
                sk_enc@,
                sk_p@,
                message.spec_bytes(),
                report.0@,
                report.1@,
                report.2@,
                report.3,
            ),
    {
        let (k_f, c2, ctx, ct) = report;
        let p = match elgamal_dec(sk_enc, ct) {
            Some(p) => p,
            None => {
                return Err(ReportError::Malformed);
            },
        };
        if !com_open(c2, message, k_f) {
            return Err(ReportError::Reject);
        }
        let msg = concat(c2.as_slice(), ctx.as_slice());
        let sigma = mac_64_sign(sk_p, &msg);
        let q = hash_to_point(&sigma);
        proof {
            vstd::arithmetic::div_mod::lemma_small_mod(ristretto_log(q@) as nat, ell() as nat);
            crate::ristretto::lemma_point_eq(p@, q@);
        }
        if !ct_eq_bytes(&p, &q) {
            return Err(ReportError::Reject);
        }
        Ok(copy_bytes(ctx.as_slice()))
    }
}

/// What processing `(c2, ctx)` for the moderator at index `ad` yields, given
/// the registry `ks` and the ElGamal randomness `r`: the tag point encrypted
/// under the moderator's key.
pub open spec fn basic_process_ok(
    ks: Seq<([u8; 64], Point)>,
    c2: Seq<u8>,
    ad: u32,
    ctx: Seq<u8>,
    r: int,
    sigma: Ciphertext,
) -> bool {
    ad < ks.len() && ct_valid(sigma) && ct_logs(sigma) == elgamal_enc_logs(
        ristretto_log(ks[ad as int].1@),
        ristretto_log(ristretto_hash_of(hmac_sha512_of(ks[ad as int].0@, c2 + ctx)@)),
        r,
    )
}

impl Platform {
    /// A platform with no moderator.
    pub fn new() -> (p: Platform)
        ensures
            p.sk_p@.len() == 0,
    {
        Platform { sk_p: Vec::new() }
    }

    /// The basic scheme has no platform keys: both are `None`, and the
    /// registry is left as it is.
    pub fn setup_platform(&mut self) -> (keys: (Option<Vec<u8>>, Option<Vec<u8>>))
        ensures
            keys.0 is None && keys.1 is None,
            final(self).sk_p@ == old(self).sk_p@,
    {
        (None, None)
    }

    /// Processes `(c2, ctx)` for the moderator at index `ad` with the
    /// ElGamal randomness `r`. `Invariant` when `ad` is outside the
    /// registry; `Malformed` when the moderator's key is not a point.
    pub fn process_with(
        ks: &Vec<([u8; 64], Point)>,
        c2: &Vec<u8>,
        ad: u32,
        ctx: &Vec<u8>,
        r: &[u8; 32],
    ) -> (res: Result<(Ciphertext, (Vec<u8>, u32)), ReportError>)
        ensures
            ad >= ks@.len() <==> res == Err::<(Ciphertext, (Vec<u8>, u32)), ReportError>(
                ReportError::Invariant,
            ),
            ad < ks@.len() && !is_point(ks@[ad as int].1@) <==> res == Err::<
                (Ciphertext, (Vec<u8>, u32)),
                ReportError,
            >(ReportError::Malformed),
            res matches Ok((sigma, st)) ==> basic_process_ok(ks@, c2@, ad, ctx@, scalar_of(r@), sigma)
                && st.0@ == ctx@ && st.1 == ad,
            ad < ks@.len() && is_point(ks@[ad as int].1@) ==> res is Ok,
    {
        let moderator_id = ad as usize;
        if moderator_id >= ks.len() {
            return Err(ReportError::Invariant);
        }
        let (mac_key_i, mod_pk_i) = &ks[moderator_id];
        let msg = concat(c2.as_slice(), ctx.as_slice());
        let sigma_raw = mac_64_sign(mac_key_i, &msg);
        let sigma_point = hash_to_point(&sigma_raw);
        let sigma = match elgamal_enc_with(mod_pk_i, &sigma_point, r) {
            Some(ct) => ct,
            None => {
                return Err(ReportError::Malformed);
            },
        };
        Ok((sigma, (copy_bytes(ctx.as_slice()), ad)))
    }

    /// Processes `(c2, ctx)` for the moderator at index `ad` with fresh
    /// randomness.
    pub fn process(
        ks: &Vec<([u8; 64], Point)>,
        _c1: &Vec<u8>,
        c2: &Vec<u8>,
        ad: u32,
        ctx: &Vec<u8>,
    ) -> (res: Result<(Ciphertext, (Vec<u8>, u32)), ReportError>)
        ensures
            ad >= ks@.len() <==> res == Err::<(Ciphertext, (Vec<u8>, u32)), ReportError>(
                ReportError::Invariant,
            ),
            ad < ks@.len() && !is_point(ks@[ad as int].1@) <==> res == Err::<
                (Ciphertext, (Vec<u8>, u32)),
                ReportError,
            >(ReportError::Malformed),
            res matches Ok((sigma, st)) ==> (exists|r: int| #[trigger]
                basic_process_ok(ks@, c2@, ad, ctx@, r, sigma)) && st.0@ == ctx@ && st.1 == ad,
            ad < ks@.len() && is_point(ks@[ad as int].1@) ==> res is Ok,
    {
        let r = random_scalar();
        Self::process_with(ks, c2, ad, ctx, &r)
    }
}

impl Client {
    /// A client with a fresh channel key.
    pub fn new() -> (c: Client) {
        Client { msg_key: aead_keygen() }
    }

    /// Franked encryption of `message` with the franking key `k_f`.
    pub fn ccae_enc_with(msg_key: &[u8; 32], message: &str, k_f: [u8; 32]) -> (r: Result<
        (Vec<u8>, Vec<u8>),
        ReportError,
    >)
        ensures
            r is Ok <==> payload_spec(message.spec_bytes(), k_f@).len() <= aead_max_plaintext(),
            r matches Err(e) ==> e == ReportError::Malformed,
            r matches Ok((c1, c2)) ==> c1_carries(msg_key@, c1@, payload_spec(message.spec_bytes(), k_f@))
                && c2@ == commit_spec(k_f@, message.spec_bytes()),
    {
        let c2 = com_commit(&k_f, message);
        let c1 = seal_payload(msg_key, message, &k_f)?;
        Ok((c1, c2))
    }

    /// Franked encryption of `message` with a fresh franking key.
    pub fn ccae_enc(msg_key: &[u8; 32], message: &str) -> (r: Result<(Vec<u8>, Vec<u8>), ReportError>)
        ensures
            r is Ok <==> message.spec_bytes().len() + 40 <= aead_max_plaintext(),
            r matches Err(e) ==> e == ReportError::Malformed,
            r matches Ok((c1, c2)) ==> franked_sent(msg_key@, message.spec_bytes(), c1@, c2@),
    {
        let k_f = mac_keygen();
        proof {
            crate::framing::lemma_le_bytes_len(message.spec_bytes().len(), 8);
        }
        let r = Self::ccae_enc_with(msg_key, message, k_f);
        proof {
            if r is Ok {
                assert(c1_carries(msg_key@, r->Ok_0.0@, payload_spec(message.spec_bytes(), k_f@)));
            }
        }
        r
    }

    /// Franked decryption: the message and franking key that `c1` carries,
    /// once `c2` opens to them.
    pub fn ccae_dec(msg_key: &[u8; 32], c1: &Vec<u8>, c2: &Vec<u8>) -> (r: Result<(String, [u8; 32]), ReportError>)
        ensures
            r matches Ok((m, k_f)) ==> franked_read_ok(msg_key@, c1@, c2@, m@, k_f@),
            forall|m: Seq<char>, k_f: Seq<u8>|
                #[trigger] franked_read_ok(msg_key@, c1@, c2@, m, k_f) ==> (r matches Ok((m2, k2))
                    && m2@ == m && k2@ == k_f),
            r matches Err(e) ==> (e == ReportError::Reject || e == ReportError::Malformed),
            r matches Err(e) ==> (e == ReportError::Malformed <==> carries_malformed(msg_key@, c1@, 32)),
            carries_nothing(msg_key@, c1@) ==> (r matches Err(e) && e == ReportError::Reject),
    {
        let (m, k_f) = open_payload(msg_key, c1, 32)?;
        if !com_open(c2, m.as_str(), k_f.as_slice()) {
            return Err(ReportError::Reject);
        }
        Ok((m, to_array32(k_f.as_slice())))
    }

    /// Sends `message` for the moderator `moderator_id`.
    pub fn send(msg_key: &[u8; 32], message: &str, moderator_id: u32) -> (r: Result<
        (Vec<u8>, Vec<u8>, u32),
        ReportError,
    >)
        ensures
            r is Ok <==> message.spec_bytes().len() + 40 <= aead_max_plaintext(),
            r matches Err(e) ==> e == ReportError::Malformed,
            r matches Ok((c1, c2, ad)) ==> ad == moderator_id && franked_sent(
                msg_key@,
                message.spec_bytes(),
                c1@,
                c2@,
            ),
    {
        let (c1, c2) = Self::ccae_enc(msg_key, message)?;
        Ok((c1, c2, moderator_id))
    }

    /// Reads a processed message: decrypts and opens it, and keeps the
    /// report document `(k_f, c2, ctx, sigma)`. `Invariant` when the
    /// moderator index is outside `pks`.
    pub fn read(
        msg_key: &[u8; 32],
        pks: &Vec<Point>,
        c1: &Vec<u8>,
        c2: &Vec<u8>,
        sigma: &Ciphertext,
        st: &(Vec<u8>, u32),
    ) -> (r: Result<(String, u32, Report), ReportError>)
        ensures
            st.1 >= pks@.len() ==> r == Err::<(String, u32, Report), ReportError>(ReportError::Invariant),
            r matches Ok((m, ad, rd)) ==> ad == st.1 && franked_read_ok(msg_key@, c1@, c2@, m@, rd.0@)
                && rd.1@ == c2@ && rd.2@ == st.0@ && rd.3 == *sigma,
            st.1 < pks@.len() ==> forall|m: Seq<char>, k_f: Seq<u8>|
                #[trigger] franked_read_ok(msg_key@, c1@, c2@, m, k_f) ==> (r matches Ok((m2, _, rd))
                    && m2@ == m && rd.0@ == k_f),
            r matches Err(e) ==> (e == ReportError::Reject || e == ReportError::Malformed || e
                == ReportError::Invariant),
    {
        let (ctx, ad) = st;
        if *ad as usize >= pks.len() {
            return Err(ReportError::Invariant);
        }
        let (message, k_f) = Self::ccae_dec(msg_key, c1, c2)?;
        let rd: Report = (k_f, copy_bytes(c2.as_slice()), copy_bytes(ctx.as_slice()), *sigma);
        Ok((message, *ad, rd))
    }

    /// The report is the report document itself.
    pub fn report_gen(_msg: &String, rd: &Report) -> (report: Report)
        ensures
            report.0 == rd.0 && report.1@ == rd.1@ && report.2@ == rd.2@ && report.3 == rd.3,
    {
        (rd.0, copy_bytes(rd.1.as_slice()), copy_bytes(rd.2.as_slice()), rd.3)
    }
}

/// A platform with an empty registry.
pub fn test_basic_setup_platform() -> (platform: Platform)
    ensures
        platform.sk_p@.len() == 0,
{
    Platform::new()
}

/// Creates `num_moderators` moderators and registers each with the
/// platform, in order: the registry gains their tagging and public keys.
pub fn test_basic_setup_mod(platform: &mut Platform, num_moderators: usize) -> (r: (Vec<Moderator>, Vec<Point>))
    ensures
        r.0@.len() == num_moderators && r.1@.len() == num_moderators,
        final(platform).sk_p@.len() == old(platform).sk_p@.len() + num_moderators,
        forall|i: int| 0 <= i < old(platform).sk_p@.len() ==> final(platform).sk_p@[i] == old(platform).sk_p@[i],
        forall|i: int|
            0 <= i < num_moderators ==> r.0@[i].wf() && final(platform).sk_p@[old(platform).sk_p@.len() + i]
                == (r.0@[i].sk_p, r.0@[i].pk_enc) && r.1@[i] == r.0@[i].pk_enc,
{
    let ghost start = platform.sk_p@;
    let mut moderators: Vec<Moderator> = Vec::with_capacity(num_moderators);
    let mut pks: Vec<Point> = Vec::with_capacity(num_moderators);
    let mut i: usize = 0;
    while i < num_moderators
        invariant
            0 <= i <= num_moderators,
            moderators@.len() == i && pks@.len() == i,
            platform.sk_p@.len() == start.len() + i,
            start == old(platform).sk_p@,
            forall|j: int| 0 <= j < start.len() ==> platform.sk_p@[j] == start[j],
            forall|j: int| 0 <= j < i ==> #[trigger] moderators@[j].wf(),
            forall|j: int| 0 <= j < i ==> platform.sk_p@[start.len() + j] == (
                    #[trigger] moderators@[j].sk_p,
                    moderators@[j].pk_enc,
                ),
            forall|j: int| 0 <= j < i ==> #[trigger] pks@[j] == moderators@[j].pk_enc,
        decreases num_moderators - i,
    {
        let moderator = Moderator::new();
        platform.sk_p.push((moderator.sk_p, moderator.pk_enc));
        pks.push(moderator.pk_enc);
        moderators.push(moderator);
        i = i + 1;
    }
    (moderators, pks)
}

/// `num_clients` clients, each with a fresh channel key.
pub fn test_basic_init_clients(num_clients: usize) -> (clients: Vec<Client>)
    ensures
        clients@.len() == num_clients,
{
    let mut clients: Vec<Client> = Vec::with_capacity(num_clients);
    let mut i: usize = 0;
    while i < num_clients
        invariant
            0 <= i <= num_clients,
            clients@.len() == i,
        decreases num_clients - i,
    {
        clients.push(Client::new());
        i = i + 1;
    }
    clients
}

/// Decrypting with `x` an ElGamal encryption under `x·g` gives the message
/// back, on logarithms.
pub proof fn lemma_elgamal_round_trip(x: int, h: int, r: int)
    ensures
        elgamal_dec_logs(x, elgamal_enc_logs(x, h, r)) == h % ell(),
{
    let l = ell();
    let a = r * x + h;
    let b = x * (r % l);
    vstd::arithmetic::div_mod::lemma_mul_mod_noop_right(x, r, l);
    assert(r * x == x * r) by (nonlinear_arith);
    vstd::arithmetic::div_mod::lemma_sub_mod_noop(a, b, l);
    vstd::arithmetic::div_mod::lemma_sub_mod_noop(a, x * r, l);
    vstd::arithmetic::div_mod::lemma_sub_mod_noop_right(a % l, b, l);
}

/// A message sent in the basic scheme, processed for a moderator whose key
/// pair matches, is read back with its franking key, and its report is
/// accepted by that moderator with the context the platform bound.
pub proof fn lemma_basic_round_trip(
    k_r: Seq<u8>,
    m: Seq<char>,
    k_f: Seq<u8>,
    c1: Seq<u8>,
    sk: Seq<u8>,
    k_p: Seq<u8>,
    ctx: Seq<u8>,
    r: int,
    sigma: Ciphertext,
)
    requires
        k_f.len() == 32,
        c1_carries(k_r, c1, payload_spec(encode_utf8(m), k_f)),
        ct_valid(sigma),
        ct_logs(sigma) == elgamal_enc_logs(
            scalar_of(sk),
            ristretto_log(ristretto_hash_of(hmac_sha512_of(k_p, commit_spec(k_f, encode_utf8(m)) + ctx)@)),
            r,
        ),
    ensures
        franked_read_ok(k_r, c1, commit_spec(k_f, encode_utf8(m)), m, k_f),
        basic_moderate_spec(
            sk,
            k_p,
            encode_utf8(m),
            k_f,
            commit_spec(k_f, encode_utf8(m)),
            ctx,
            sigma,
        ) == Ok::<Seq<u8>, ReportError>(ctx),
{
    lemma_elgamal_round_trip(
        scalar_of(sk),
        ristretto_log(ristretto_hash_of(hmac_sha512_of(k_p, commit_spec(k_f, encode_utf8(m)) + ctx)@)),
        r,
    );
}

} // verus!
