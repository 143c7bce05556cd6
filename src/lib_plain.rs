//! The plain scheme: a single moderator who also tags every message.
use vstd::prelude::*;
use vstd::string::StringSliceAdditionalSpecFns;
use vstd::utf8::encode_utf8;
use crate::framing::concat;
use crate::lib_common::{
    aead_max_plaintext, c1_carries, carries_malformed, carries_nothing, com_commit, com_open,
    commit_spec, franked_read_ok, franked_sent, mac_keygen, mac_sign, mac_spec, mac_verify, mac_verify_spec, open_spec, open_payload,
    payload_read_ok, payload_spec, random_u32, seal_payload, ReportError,
};

verus! {

/// A user, with the channel key shared with its peer.
pub struct Client {
    pub uid: u32,
    pub k_r: [u8; 32],
}

/// The moderator, who holds the tagging key.
pub struct Moderator {
    pub k_m: [u8; 32],
}

/// The tag of the moderator over the commitment and the context.
pub open spec fn mod_process_spec(k_m: Seq<u8>, c2: Seq<u8>, ctx: Seq<u8>) -> Seq<u8> {
    mac_spec(k_m, c2 + ctx)
}

/// The moderator's decision on a report: the commitment opens and the tag
/// verifies.
pub open spec fn plain_moderate_spec(
    k_m: Seq<u8>,
    m: Seq<u8>,
    ctx: Seq<u8>,
    k_f: Seq<u8>,
    c2: Seq<u8>,
    sigma: Seq<u8>,
) -> bool {
    open_spec(c2, m, k_f) && mac_verify_spec(k_m, c2 + ctx, sigma)
}

impl Client {
    /// A client with the channel key `k_r`.
    pub fn new(k_r: [u8; 32]) -> (c: Client)
        ensures
            c.k_r == k_r,
    {
        Client { uid: random_u32(), k_r: k_r }
    }

    /// Sends `message` with the franking key `k_f`: `c2` commits to the
    /// message, `c1` carries the message and `k_f` under `k_r`.
    pub fn send_with(message: &str, k_r: [u8; 32], k_f: [u8; 32]) -> (r: Result<(Vec<u8>, Vec<u8>), ReportError>)
        ensures
            r is Ok <==> payload_spec(message.spec_bytes(), k_f@).len() <= aead_max_plaintext(),
            r matches Err(e) ==> e == ReportError::Malformed,
            r matches Ok((c1, c2)) ==> c1_carries(k_r@, c1@, payload_spec(message.spec_bytes(), k_f@))
                && c2@ == commit_spec(k_f@, message.spec_bytes()),
    {
        let c2 = com_commit(&k_f, message);
        let c1 = seal_payload(&k_r, message, &k_f)?;
        Ok((c1, c2))
    }

    /// Sends `message` with a fresh franking key.
    pub fn send(message: &str, k_r: [u8; 32]) -> (r: Result<(Vec<u8>, Vec<u8>), ReportError>)
        ensures
            r is Ok <==> message.spec_bytes().len() + 40 <= aead_max_plaintext(),
            r matches Err(e) ==> e == ReportError::Malformed,
            r matches Ok((c1, c2)) ==> franked_sent(k_r@, message.spec_bytes(), c1@, c2@),
    {
        let k_f = mac_keygen();
        proof {
            crate::framing::lemma_le_bytes_len(message.spec_bytes().len(), 8);
        }
        let r = Self::send_with(message, k_r, k_f);
        proof {
            if r is Ok {
                assert(c1_carries(k_r@, r->Ok_0.0@, payload_spec(message.spec_bytes(), k_f@)));
            }
        }
        r
    }

    /// Reads `c1` under `k_r` with the platform's `(c2, ctx, sigma)`: the
    /// message, the context, the report document `(k_f, c2)` and the tag.
    /// `Reject` when `c1` does not decrypt or `c2` does not open;
    /// `Malformed` when the payload is not a message and a key.
    pub fn read(k_r: [u8; 32], c1: Vec<u8>, rt: (Vec<u8>, String, Vec<u8>)) -> (r: Result<
        (String, String, (Vec<u8>, Vec<u8>), Vec<u8>),
        ReportError,
    >)
        ensures
            r matches Ok((m, ctx, rd, sigma)) ==> franked_read_ok(k_r@, c1@, rt.0@, m@, rd.0@) && ctx@
                == rt.1@ && rd.1@ == rt.0@ && sigma@ == rt.2@,
            forall|m: Seq<char>, k_f: Seq<u8>|
                #[trigger] franked_read_ok(k_r@, c1@, rt.0@, m, k_f) ==> (r matches Ok((m2, _, rd, _))
                    && m2@ == m && rd.0@ == k_f),
            r matches Err(e) ==> (e == ReportError::Reject || e == ReportError::Malformed),
            r matches Err(e) ==> (e == ReportError::Malformed <==> carries_malformed(k_r@, c1@, 32)),
            carries_nothing(k_r@, c1@) ==> (r matches Err(e) && e == ReportError::Reject),
    {
        let (c2, ctx, sigma) = rt;
        let (m, k_f) = open_payload(&k_r, &c1, 32)?;
        if !com_open(&c2, m.as_str(), k_f.as_slice()) {
            return Err(ReportError::Reject);
        }
        Ok((m, ctx, (k_f, c2), sigma))
    }
}

impl Moderator {
    /// Tags the commitment `c2` together with the context `ctx`.
    pub fn mod_process(k_m: &[u8; 32], c2: &Vec<u8>, ctx: &str) -> (sigma: Vec<u8>)
        ensures
            sigma@ == mod_process_spec(k_m@, c2@, ctx.spec_bytes()),
    {
        let msg = concat(c2.as_slice(), ctx.as_bytes());
        mac_sign(k_m, &msg)
    }

    /// Accepts a report when the commitment opens to `m` and the tag
    /// verifies over the commitment and the context.
    pub fn moderate(k_m: &[u8; 32], m: &str, ctx: &str, rd: (Vec<u8>, Vec<u8>), sigma: Vec<u8>) -> (valid: bool)
        ensures
            valid == plain_moderate_spec(k_m@, m.spec_bytes(), ctx.spec_bytes(), rd.0@, rd.1@, sigma@),
    {
        let (k_f, c2) = rd;
        let valid_f = com_open(&c2, m, k_f.as_slice());
        let msg = concat(c2.as_slice(), ctx.as_bytes());
        let valid_r = mac_verify(k_m, &msg, &sigma);
        valid_f && valid_r
    }

    /// A moderator with a fresh tagging key.
    pub fn new() -> (m: Moderator) {
        Moderator { k_m: mac_keygen() }
    }
}

/// A message sent, tagged and read in the plain scheme is read back with
/// its franking key, and its report is accepted by the moderator.
pub proof fn lemma_plain_round_trip(
    k_r: Seq<u8>,
    m: Seq<char>,
    ctx: Seq<char>,
    k_f: Seq<u8>,
    k_m: Seq<u8>,
    c1: Seq<u8>,
)
    requires
        k_f.len() == 32,
        c1_carries(k_r, c1, payload_spec(encode_utf8(m), k_f)),
    ensures
        franked_read_ok(k_r, c1, commit_spec(k_f, encode_utf8(m)), m, k_f),
        plain_moderate_spec(
            k_m,
            encode_utf8(m),
            encode_utf8(ctx),
            k_f,
            commit_spec(k_f, encode_utf8(m)),
            mod_process_spec(k_m, commit_spec(k_f, encode_utf8(m)), encode_utf8(ctx)),
        ),
{
}

} // verus!
