//! Shared primitives: hashing, commitments, MACs and the MAC-based PRG.
use vstd::prelude::*;
use vstd::string::StringSliceAdditionalSpecFns;
use vstd::utf8::{decode_utf8, encode_utf8, valid_utf8};
use crate::framing::{
    array_to_vec, decode_field_tail, decode_pair, encode_field_tail, encode_pair, framed, le_nat,
    lemma_field_tail_round_trip, lemma_pair_round_trip, lemma_parse_field_tail_inverse,
    parse_field_tail, parse_pair, pow256,
};
use crate::lib_blst::bls_order;
use hmac::{Hmac, Mac};
use sha2::{Digest, Sha256, Sha512};
use subtle::ConstantTimeEq;
use aes_gcm::aead::{Aead, AeadCore, KeyInit};
use aes_gcm::{Aes256Gcm, Key, Nonce};
use rand_chacha::ChaCha20Rng;
use rand_chacha::rand_core::{RngCore, SeedableRng};

verus! {

/// Why a protocol step refused its input.
#[derive(Clone, Copy, Debug, PartialEq, Eq, Structural)]
pub enum ReportError {
    /// A cryptographic check failed: a commitment, a tag, a pairing
    /// equality, the reportability check or an authenticated decryption.
    Reject,
    /// Bytes of the wrong size or layout, or an invalid encoding.
    Malformed,
    /// A moderator index outside the registry.
    Invariant,
    /// The random generator produced an unusable value.
    Rng,
}

/// The bytes of a result that carries bytes.
pub open spec fn bytes_result(r: Result<Vec<u8>, ReportError>) -> Result<Seq<u8>, ReportError> {
    match r {
        Ok(v) => Ok(v@),
        Err(e) => Err(e),
    }
}

/// The SHA-256 digest of `msg`.
pub uninterp spec fn sha256_of(msg: Seq<u8>) -> [u8; 32];

/// The HMAC-SHA256 tag of `msg` under `key`.
pub uninterp spec fn hmac_sha256_of(key: Seq<u8>, msg: Seq<u8>) -> [u8; 32];

/// The HMAC-SHA512 tag of `msg` under `key`.
pub uninterp spec fn hmac_sha512_of(key: Seq<u8>, msg: Seq<u8>) -> [u8; 64];

/// Relies on sha2::Sha256: the digest is 32 bytes and depends on `msg` alone.
#[verifier::external_body]
pub(crate) fn sha256(msg: &[u8]) -> (r: [u8; 32])
    ensures
        r == sha256_of(msg@),
{
    let mut hasher = Sha256::new();
    hasher.update(msg);
    hasher.finalize().into()
}

/// Relies on hmac::Hmac<Sha256>: any key length is accepted, the tag is 32
/// bytes and depends on the key and the message alone.
#[verifier::external_body]
fn hmac_sha256(key: &[u8], msg: &[u8]) -> (r: [u8; 32])
    ensures
        r == hmac_sha256_of(key@, msg@),
{
    let mut mac = <Hmac<Sha256> as Mac>::new_from_slice(key).expect("HMAC takes keys of any length");
    mac.update(msg);
    mac.finalize().into_bytes().into()
}

/// Relies on hmac::Hmac<Sha512>: any key length is accepted, the tag is 64
/// bytes and depends on the key and the message alone.
#[verifier::external_body]
fn hmac_sha512(key: &[u8], msg: &[u8]) -> (r: [u8; 64])
    ensures
        r == hmac_sha512_of(key@, msg@),
{
    let mut mac = <Hmac<Sha512> as Mac>::new_from_slice(key).expect("HMAC takes keys of any length");
    mac.update(msg);
    mac.finalize().into_bytes().into()
}

/// Relies on subtle's `ConstantTimeEq` for byte slices: true exactly when
/// both slices have the same length and the same bytes.
#[verifier::external_body]
pub(crate) fn ct_eq_bytes(a: &[u8], b: &[u8]) -> (r: bool)
    ensures
        r == (a@ == b@),
{
    bool::from(a.ct_eq(b))
}

/// The first `len` bytes of the ChaCha20 keystream seeded with `seed`.
pub uninterp spec fn chacha20_stream_of(seed: Seq<u8>, len: nat) -> Seq<u8>;

/// Relies on rand_chacha::ChaCha20Rng: seeded by `SeedableRng::from_seed`,
/// `fill_bytes` hands out the keystream, which depends on the seed alone.
#[verifier::external_body]
fn chacha20_stream(seed: &[u8; 32], len: usize) -> (r: Vec<u8>)
    ensures
        r@ == chacha20_stream_of(seed@, len as nat),
        r@.len() == len,
{
    let mut rng = ChaCha20Rng::from_seed(*seed);
    let mut out = vec![0u8; len];
    rng.fill_bytes(&mut out);
    out
}

/// Relies on blstrs::Scalar::from_bytes_le: it accepts exactly the
/// little-endian encodings of integers below the group order.
#[verifier::external_body]
pub(crate) fn bls_scalar_is_canonical(b: &[u8; 32]) -> (r: bool)
    ensures
        r == (le_nat(b@) < bls_order()),
{
    bool::from(blstrs::Scalar::from_bytes_le(b).is_some())
}

/// Relies on rand's `OsRng`: fills 32 bytes from the operating system.
#[verifier::external_body]
fn os_random_32() -> (r: [u8; 32]) {
    let mut k = [0u8; 32];
    rand::RngCore::fill_bytes(&mut rand::rngs::OsRng, &mut k);
    k
}

/// Relies on rand's `OsRng`: fills 64 bytes from the operating system.
#[verifier::external_body]
fn os_random_64() -> (r: [u8; 64]) {
    let mut k = [0u8; 64];
    rand::RngCore::fill_bytes(&mut rand::rngs::OsRng, &mut k);
    k
}

/// SHA-256 of `x`.
pub fn hash(x: &Vec<u8>) -> (r: Vec<u8>)
    ensures
        r@ == sha256_of(x@)@,
        r@.len() == 32,
{
    let d = sha256(x.as_slice());
    array_to_vec(&d)
}

/// The commitment to the bytes `m` under the franking key `k_f`.
pub open spec fn commit_spec(k_f: Seq<u8>, m: Seq<u8>) -> Seq<u8> {
    hmac_sha256_of(k_f, m)@
}

/// Whether `c` opens to the bytes `m` under the franking key `k_f`.
pub open spec fn open_spec(c: Seq<u8>, m: Seq<u8>, k_f: Seq<u8>) -> bool {
    c == commit_spec(k_f, m)
}

/// The MAC tag of `m` under `k`.
pub open spec fn mac_spec(k: Seq<u8>, m: Seq<u8>) -> Seq<u8> {
    hmac_sha256_of(k, m)@
}

/// Whether `sigma` is the MAC tag of `m` under `k`.
pub open spec fn mac_verify_spec(k: Seq<u8>, m: Seq<u8>, sigma: Seq<u8>) -> bool {
    sigma == mac_spec(k, m)
}

/// Commits to the message `m` under the franking key `r`.
pub fn com_commit(r: &[u8], m: &str) -> (c: Vec<u8>)
    ensures
        c@ == commit_spec(r@, m.spec_bytes()),
        c@.len() == 32,
{
    let t = hmac_sha256(r, m.as_bytes());
    array_to_vec(&t)
}

/// Opens the commitment `c` to the message `m` with the franking key `r`,
/// comparing in constant time.
pub fn com_open(c: &Vec<u8>, m: &str, r: &[u8]) -> (b: bool)
    ensures
        b == open_spec(c@, m.spec_bytes(), r@),
{
    let t = hmac_sha256(r, m.as_bytes());
    ct_eq_bytes(&t, c.as_slice())
}

/// A fresh 32-byte MAC key.
pub fn mac_keygen() -> (k: [u8; 32]) {
    os_random_32()
}

/// A fresh 64-byte MAC key for HMAC-SHA512.
pub fn mac_64_keygen() -> (k: [u8; 64]) {
    os_random_64()
}

/// HMAC-SHA256 tag of `m` under `k`.
pub fn mac_sign(k: &[u8; 32], m: &Vec<u8>) -> (sigma: Vec<u8>)
    ensures
        sigma@ == mac_spec(k@, m@),
        sigma@.len() == 32,
{
    let t = hmac_sha256(k, m.as_slice());
    array_to_vec(&t)
}

/// HMAC-SHA512 tag of `m` under `k`.
pub fn mac_64_sign(k: &[u8; 64], m: &Vec<u8>) -> (sigma: [u8; 64])
    ensures
        sigma == hmac_sha512_of(k@, m@),
{
    hmac_sha512(k, m.as_slice())
}

/// Checks `sigma` against the HMAC-SHA256 tag of `m` under `k`, in constant
/// time.
pub fn mac_verify(k: &[u8; 32], m: &Vec<u8>, sigma: &Vec<u8>) -> (valid: bool)
    ensures
        valid == mac_verify_spec(k@, m@, sigma@),
{
    let t = hmac_sha256(k, m.as_slice());
    ct_eq_bytes(sigma.as_slice(), &t)
}

/// Label of the first half of the MAC-based PRG.
pub const MAC_PRG_CONST_1: &'static str = "MAC_PRG_CONSTANT_1";

/// Label of the second half of the MAC-based PRG.
pub const MAC_PRG_CONST_2: &'static str = "MAC_PRG_CONSTANT_2";

/// The 64 bytes that the PRG expands `seed` into: the MAC of the first label,
/// then the MAC of the second.
pub open spec fn mac_prg_spec(seed: Seq<u8>) -> Seq<u8> {
    mac_spec(seed, MAC_PRG_CONST_1.spec_bytes()) + mac_spec(seed, MAC_PRG_CONST_2.spec_bytes())
}

/// Expands a 32-byte seed into two 32-byte values (s, r).
pub fn mac_prg(seed: &[u8; 32]) -> (ret: [u8; 64])
    ensures
        ret@ == mac_prg_spec(seed@),
{
    let s = hmac_sha256(seed, MAC_PRG_CONST_1.as_bytes());
    let r = hmac_sha256(seed, MAC_PRG_CONST_2.as_bytes());
    let mut ret: [u8; 64] = [0u8; 64];
    let mut i: usize = 0;
    while i < 32
        invariant
            0 <= i <= 32,
            forall|j: int| 0 <= j < i ==> ret@[j] == s@[j],
            forall|j: int| 0 <= j < i ==> ret@[j + 32] == r@[j],
        decreases 32 - i,
    {
        ret[i] = s[i];
        ret[i + 32] = r[i];
        i = i + 1;
    }
    assert(ret@ =~= s@ + r@);
    ret
}

/// Opening a commitment with the message and franking key it was made from
/// succeeds.
pub proof fn lemma_open_commit(k_f: Seq<u8>, m: Seq<u8>)
    ensures
        open_spec(commit_spec(k_f, m), m, k_f),
{
}

/// A MAC tag verifies under the key and message it was made with.
pub proof fn lemma_verify_sign(k: Seq<u8>, msg: Seq<u8>)
    ensures
        mac_verify_spec(k, msg, mac_spec(k, msg)),
{
}

/// Largest plaintext, in bytes, that AES-256-GCM encrypts.
pub open spec fn aead_max_plaintext() -> nat {
    0x10_0000_0000
}

/// The AES-256-GCM ciphertext (with its 16-byte tag appended) of `pt` under
/// `key` and `nonce`, with no associated data.
pub uninterp spec fn aes_gcm_seal_of(key: Seq<u8>, nonce: Seq<u8>, pt: Seq<u8>) -> Seq<u8>;

/// Relies on aes_gcm's `Aead::encrypt` for `Aes256Gcm`: it fails only on a
/// plaintext longer than 2^36 bytes, and appends a 16-byte tag.
#[verifier::external_body]
pub(crate) fn aead_seal(key: &[u8; 32], nonce: &[u8; 12], pt: &[u8]) -> (r: Option<Vec<u8>>)
    ensures
        r is Some <==> pt@.len() <= aead_max_plaintext(),
        r matches Some(c) ==> c@ == aes_gcm_seal_of(key@, nonce@, pt@) && c@.len() == pt@.len() + 16,
{
    let cipher = Aes256Gcm::new(Key::<Aes256Gcm>::from_slice(key));
    cipher.encrypt(Nonce::from_slice(nonce), pt).ok()
}

/// Largest plaintext, in bytes, that AES-256-GCM decrypts: the body before
/// the tag may be up to 2^36 + 16 bytes.
pub open spec fn aead_max_opened() -> nat {
    0x10_0000_0010
}

/// Relies on aes_gcm's `Aead::decrypt` for `Aes256Gcm`: it returns the
/// plaintext exactly when `ct` is its authentic encryption under `key` and
/// `nonce`, for plaintexts of at most 2^36 + 16 bytes.
#[verifier::external_body]
pub(crate) fn aead_open(key: &[u8; 32], nonce: &[u8; 12], ct: &[u8]) -> (r: Option<Vec<u8>>)
    ensures
        r matches Some(p) ==> ct@ == aes_gcm_seal_of(key@, nonce@, p@) && p@.len() <= aead_max_opened(),
        r matches Some(q) ==> forall|p: Seq<u8>|
            p.len() <= aead_max_opened() && ct@ == #[trigger] aes_gcm_seal_of(key@, nonce@, p) ==> q@ == p,
        r is None ==> forall|p: Seq<u8>|
            p.len() <= aead_max_opened() ==> ct@ != #[trigger] aes_gcm_seal_of(key@, nonce@, p),
{
    let cipher = Aes256Gcm::new(Key::<Aes256Gcm>::from_slice(key));
    cipher.decrypt(Nonce::from_slice(nonce), ct).ok()
}

/// Decrypts `ct`, keeping only plaintexts that AES-256-GCM would also
/// encrypt: the plaintext that `ct` authenticates, if any.
pub(crate) fn aead_decrypt(key: &[u8; 32], nonce: &[u8; 12], ct: &[u8]) -> (r: Option<Vec<u8>>)
    ensures
        r matches Some(p) ==> ct@ == aes_gcm_seal_of(key@, nonce@, p@) && p@.len() <= aead_max_plaintext(),
        r matches Some(q) ==> forall|p: Seq<u8>|
            p.len() <= aead_max_plaintext() && ct@ == #[trigger] aes_gcm_seal_of(key@, nonce@, p) ==> q@ == p,
        r is None ==> forall|p: Seq<u8>|
            p.len() <= aead_max_plaintext() ==> ct@ != #[trigger] aes_gcm_seal_of(key@, nonce@, p),
{
    let p = aead_open(key, nonce, ct)?;
    if p.len() as u64 > 0x10_0000_0000u64 {
        return None;
    }
    Some(p)
}

/// Relies on aes_gcm's `KeyInit::generate_key` with the operating system's
/// generator: a fresh 256-bit key.
#[verifier::external_body]
pub fn aead_keygen() -> (k: [u8; 32]) {
    Aes256Gcm::generate_key(aes_gcm::aead::OsRng).into()
}

/// Relies on aes_gcm's `AeadCore::generate_nonce` with the operating
/// system's generator: a fresh 96-bit nonce.
#[verifier::external_body]
pub(crate) fn aead_nonce() -> (n: [u8; 12]) {
    Aes256Gcm::generate_nonce(&mut aes_gcm::aead::OsRng).into()
}

/// Number of candidates drawn when deriving a BLS scalar from a seed.
pub const SCALAR_TRIES: usize = 64;

/// The `i`-th 32-byte candidate of the keystream, with its top bit cleared.
pub open spec fn scalar_candidate(stream: Seq<u8>, i: int) -> Seq<u8> {
    let c = stream.subrange(32 * i, 32 * i + 32);
    c.update(31, (c[31] % 128) as u8)
}

/// The first candidate from `i` on that is below the group order.
pub open spec fn first_scalar_from(stream: Seq<u8>, i: int) -> Option<Seq<u8>>
    decreases SCALAR_TRIES - i,
{
    if i >= SCALAR_TRIES || i < 0 {
        None
    } else if le_nat(scalar_candidate(stream, i)) < bls_order() {
        Some(scalar_candidate(stream, i))
    } else {
        first_scalar_from(stream, i + 1)
    }
}

/// The BLS scalar (little-endian bytes) derived from `seed`: the first
/// keystream candidate below the group order.
pub open spec fn blstrs_scalar_spec(seed: Seq<u8>) -> Option<Seq<u8>> {
    first_scalar_from(chacha20_stream_of(seed, (32 * SCALAR_TRIES) as nat), 0)
}

/// Derives a BLS scalar from a 32-byte seed by rejection sampling on the
/// ChaCha20 keystream, shaving the top bit of each candidate. `None` when
/// every candidate is out of range.
pub fn new_blstrs_scalar(seed: [u8; 32]) -> (r: Option<[u8; 32]>)
    ensures
        r is Some <==> blstrs_scalar_spec(seed@) is Some,
        r matches Some(s) ==> Some(s@) == blstrs_scalar_spec(seed@),
        r matches Some(s) ==> le_nat(s@) < bls_order(),
{
    let stream = chacha20_stream(&seed, 32 * SCALAR_TRIES);
    let mut i: usize = 0;
    while i < SCALAR_TRIES
        invariant
            0 <= i <= SCALAR_TRIES,
            stream@ == chacha20_stream_of(seed@, (32 * SCALAR_TRIES) as nat),
            stream@.len() == 32 * SCALAR_TRIES,
            first_scalar_from(stream@, 0) == first_scalar_from(stream@, i as int),
        decreases SCALAR_TRIES - i,
    {
        let mut cand = [0u8; 32];
        let mut j: usize = 0;
        while j < 32
            invariant
                0 <= j <= 32,
                i < SCALAR_TRIES,
                stream@.len() == 32 * SCALAR_TRIES,
                forall|k: int| 0 <= k < j ==> cand@[k] == stream@[32 * i + k],
            decreases 32 - j,
        {
            cand[j] = stream[32 * i + j];
            j = j + 1;
        }
        let b = cand[31];
        let top = b & 0x7f;
        assert(top == b % 128) by (bit_vector)
            requires
                top == b & 0x7f,
        ;
        cand[31] = top;
        assert(cand@ =~= scalar_candidate(stream@, i as int));
        if bls_scalar_is_canonical(&cand) {
            return Some(cand);
        }
        i = i + 1;
    }
    None
}

/// The inner ciphertext as written: the framed AES-256-GCM body of
/// `payload` under `k_r` and `nonce`, then the framed nonce.
pub open spec fn c1_spec(k_r: Seq<u8>, nonce: Seq<u8>, payload: Seq<u8>) -> Seq<u8> {
    framed(aes_gcm_seal_of(k_r, nonce, payload)) + framed(nonce)
}

/// Whether the inner ciphertext `c1` carries `payload` under `k_r`.
pub open spec fn c1_carries(k_r: Seq<u8>, c1: Seq<u8>, payload: Seq<u8>) -> bool {
    payload.len() <= aead_max_plaintext() && exists|nonce: Seq<u8>|
        nonce.len() == 12 && c1 == #[trigger] c1_spec(k_r, nonce, payload)
}

/// Encrypts `payload` under the channel key `k_r` with the given nonce and
/// frames it. `None` when the payload is too long.
pub fn channel_seal_with(k_r: &[u8; 32], nonce: &[u8; 12], payload: &Vec<u8>) -> (c1: Option<Vec<u8>>)
    ensures
        c1 is Some <==> payload@.len() <= aead_max_plaintext(),
        c1 matches Some(c) ==> c@ == c1_spec(k_r@, nonce@, payload@),
{
    let ct = aead_seal(k_r, nonce, payload.as_slice())?;
    Some(encode_pair(ct.as_slice(), nonce))
}

/// Encrypts `payload` under the channel key `k_r` with a fresh nonce.
pub fn channel_seal(k_r: &[u8; 32], payload: &Vec<u8>) -> (c1: Option<Vec<u8>>)
    ensures
        c1 is Some <==> payload@.len() <= aead_max_plaintext(),
        c1 matches Some(c) ==> c1_carries(k_r@, c@, payload@),
{
    let nonce = aead_nonce();
    let c1 = channel_seal_with(k_r, &nonce, payload);
    proof {
        if c1 is Some {
            assert(c1_spec(k_r@, nonce@, payload@) == c1->0@);
        }
    }
    c1
}

/// Decrypts the inner ciphertext `c1` under the channel key `k_r`: the
/// payload it carries, if any.
pub fn channel_open(k_r: &[u8; 32], c1: &Vec<u8>) -> (payload: Option<Vec<u8>>)
    ensures
        payload matches Some(p) ==> c1_carries(k_r@, c1@, p@),
        forall|p: Seq<u8>| #[trigger] c1_carries(k_r@, c1@, p) ==> (payload matches Some(q) && q@ == p),
{
    let c1_len = c1.len();
    proof {
        assert forall|p: Seq<u8>| #[trigger] c1_carries(k_r@, c1@, p) implies parse_pair(c1@) == Some(
            (aes_gcm_seal_of(k_r@, choose|n: Seq<u8>| n.len() == 12 && c1@ == #[trigger] c1_spec(k_r@, n, p), p),
            choose|n: Seq<u8>| n.len() == 12 && c1@ == #[trigger] c1_spec(k_r@, n, p)),
        ) by {
            let n = choose|n: Seq<u8>| n.len() == 12 && c1@ == #[trigger] c1_spec(k_r@, n, p);
            let ct = aes_gcm_seal_of(k_r@, n, p);
            reveal_with_fuel(pow256, 9);
            crate::framing::lemma_le_bytes_len(ct.len(), 8);
            assert(c1@.len() == c1_len);
            crate::framing::lemma_le_bytes_len(n.len(), 8);
            lemma_pair_round_trip(ct, n);
        }
    }
    let (ct, nonce) = decode_pair(c1.as_slice())?;
    if nonce.len() != 12 {
        return None;
    }
    let nonce = to_array12(&nonce);
    let p = aead_decrypt(k_r, &nonce, ct.as_slice())?;
    proof {
        crate::framing::lemma_parse_pair_inverse(c1@);
        assert(c1_spec(k_r@, nonce@, p@) == c1@);
    }
    Some(p)
}

/// The 12 bytes of `v` as an array.
fn to_array12(v: &Vec<u8>) -> (a: [u8; 12])
    requires
        v@.len() == 12,
    ensures
        a@ == v@,
{
    let mut a = [0u8; 12];
    let mut i: usize = 0;
    while i < 12
        invariant
            0 <= i <= 12,
            v@.len() == 12,
            forall|j: int| 0 <= j < i ==> a@[j] == v@[j],
        decreases 12 - i,
    {
        a[i] = v[i];
        i = i + 1;
    }
    assert(a@ =~= v@);
    a
}

/// Relies on `String::from_utf8`: it accepts exactly the valid UTF-8 byte
/// strings and decodes them.
#[verifier::external_body]
pub(crate) fn utf8_decode(b: Vec<u8>) -> (r: Option<String>)
    ensures
        r is Some <==> vstd::utf8::valid_utf8(b@),
        r matches Some(s) ==> s@ == vstd::utf8::decode_utf8(b@),
{
    String::from_utf8(b).ok()
}

/// Relies on rand's `random::<u32>`: a value drawn from the thread-local
/// generator.
#[verifier::external_body]
pub(crate) fn random_u32() -> (r: u32) {
    rand::random::<u32>()
}

/// The payload of an inner ciphertext: the framed message bytes, then a
/// fixed-size tail of keys.
pub open spec fn payload_spec(m: Seq<u8>, tail: Seq<u8>) -> Seq<u8> {
    framed(m) + tail
}

/// Whether `c1` carries, under `k_r`, the message `m` followed by `tail`.
pub open spec fn payload_read_ok(k_r: Seq<u8>, c1: Seq<u8>, m: Seq<char>, tail: Seq<u8>) -> bool {
    c1_carries(k_r, c1, payload_spec(encode_utf8(m), tail))
}

/// Whether `c1` carries no payload under `k_r`.
pub open spec fn carries_nothing(k_r: Seq<u8>, c1: Seq<u8>) -> bool {
    forall|p: Seq<u8>| !#[trigger] c1_carries(k_r, c1, p)
}

/// Whether `c1` carries a payload under `k_r` that is not a UTF-8 message
/// followed by `t` bytes.
pub open spec fn carries_malformed(k_r: Seq<u8>, c1: Seq<u8>, t: int) -> bool {
    exists|p: Seq<u8>|
        #[trigger] c1_carries(k_r, c1, p) && match parse_field_tail(p, t) {
            Some((mb, _tail)) => !valid_utf8(mb),
            None => true,
        }
}

/// Encrypts the message `m` followed by `tail` under the channel key `k_r`.
/// `Malformed` when the payload is too long.
pub fn seal_payload(k_r: &[u8; 32], m: &str, tail: &[u8]) -> (c1: Result<Vec<u8>, ReportError>)
    ensures
        c1 is Ok <==> payload_spec(m.spec_bytes(), tail@).len() <= aead_max_plaintext(),
        c1 matches Err(e) ==> e == ReportError::Malformed,
        c1 matches Ok(c) ==> c1_carries(k_r@, c@, payload_spec(m.spec_bytes(), tail@)),
{
    let payload = encode_field_tail(m.as_bytes(), tail);
    match channel_seal(k_r, &payload) {
        Some(c) => Ok(c),
        None => Err(ReportError::Malformed),
    }
}

/// Decrypts `c1` under the channel key `k_r` into a message and a `t`-byte
/// tail. `Reject` when `c1` carries nothing; `Malformed` when what it
/// carries is not a UTF-8 message and a tail.
pub fn open_payload(k_r: &[u8; 32], c1: &Vec<u8>, t: usize) -> (r: Result<(String, Vec<u8>), ReportError>)
    ensures
        r matches Ok((m, tail)) ==> payload_read_ok(k_r@, c1@, m@, tail@) && tail@.len() == t,
        forall|m: Seq<char>, tail: Seq<u8>|
            tail.len() == t && #[trigger] payload_read_ok(k_r@, c1@, m, tail) ==> (r matches Ok(
                (m2, tail2),
            ) && m2@ == m && tail2@ == tail),
        r matches Err(e) ==> (e == ReportError::Reject <==> carries_nothing(k_r@, c1@)),
        r matches Err(e) ==> (e == ReportError::Malformed <==> carries_malformed(k_r@, c1@, t as int)),
        r matches Err(e) ==> (e == ReportError::Reject || e == ReportError::Malformed),
        r is Ok ==> !carries_malformed(k_r@, c1@, t as int),
{
    let payload = match channel_open(k_r, c1) {
        Some(p) => p,
        None => {
            return Err(ReportError::Reject);
        },
    };
    proof {
        lemma_parse_field_tail_inverse(payload@, t as int);
        assert forall|m: Seq<char>, tail: Seq<u8>|
            tail.len() == t && #[trigger] payload_read_ok(k_r@, c1@, m, tail) implies payload@
            == payload_spec(encode_utf8(m), tail) && parse_field_tail(payload@, t as int) == Some(
            (encode_utf8(m), tail),
        ) && valid_utf8(encode_utf8(m)) by {
            reveal_with_fuel(pow256, 9);
            lemma_field_tail_round_trip(encode_utf8(m), tail);
            vstd::utf8::encode_utf8_decode_utf8(m);
            vstd::utf8::encode_utf8_valid_utf8(m);
        }
        assert(c1_carries(k_r@, c1@, payload@));
    }
    let (mb, tail) = match decode_field_tail(payload.as_slice(), t) {
        Some(x) => x,
        None => {
            return Err(ReportError::Malformed);
        },
    };
    let ghost mbv = mb@;
    let m = match utf8_decode(mb) {
        Some(m) => m,
        None => {
            return Err(ReportError::Malformed);
        },
    };
    proof {
        vstd::utf8::decode_utf8_encode_utf8(mbv);
        assert(encode_utf8(m@) == mbv);
        assert forall|m2: Seq<char>, tail2: Seq<u8>|
            tail2.len() == t && #[trigger] payload_read_ok(k_r@, c1@, m2, tail2) implies m@ == m2 by {
            vstd::utf8::encode_utf8_decode_utf8(m2);
        }
    }
    Ok((m, tail))
}

/// Whether reading `(c1, c2)` under `k_r` may yield the message `m` with the
/// franking key `k_f`: `c1` carries them, and `c2` opens to `m` under `k_f`.
pub open spec fn franked_read_ok(k_r: Seq<u8>, c1: Seq<u8>, c2: Seq<u8>, m: Seq<char>, k_f: Seq<u8>) -> bool {
    k_f.len() == 32 && payload_read_ok(k_r, c1, m, k_f) && open_spec(c2, encode_utf8(m), k_f)
}

/// A copy of `a`.
pub fn copy_bytes(a: &[u8]) -> (r: Vec<u8>)
    ensures
        r@ == a@,
{
    crate::framing::slice_range(a, 0, a.len())
}

/// Whether `(c1, c2)` is a franked encryption of the bytes `m` under `k_r`
/// with some franking key.
pub open spec fn franked_sent(k_r: Seq<u8>, m: Seq<u8>, c1: Seq<u8>, c2: Seq<u8>) -> bool {
    exists|k_f: Seq<u8>|
        k_f.len() == 32 && #[trigger] c1_carries(k_r, c1, payload_spec(m, k_f)) && c2 == commit_spec(
            k_f,
            m,
        )
}

} // verus!
