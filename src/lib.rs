//! Third-party abuse reporting for end-to-end encrypted messaging.
//!
//! Four protocol variants share one pipeline (send, process, read, report,
//! moderate): `lib_plain`, `lib_basic`, `lib_mod_priv` and
//! `lib_constant_mod_priv`. They are built from the primitives of
//! `lib_common` (commitments, MACs, AEAD), `lib_gamal` (ElGamal and proxy
//! re-encryption over Ristretto) and `lib_blst` (BLS12-381 pairings).
//! Group elements travel as their canonical compressed encodings; the
//! contracts speak of them through their discrete logarithms.

pub mod framing;
pub mod lib_common;
pub mod lib_blst;
pub mod ristretto;
pub mod lib_gamal;
pub mod lib_plain;
pub mod lib_basic;
pub mod lib_mod_priv;
pub mod lib_constant_mod_priv;
