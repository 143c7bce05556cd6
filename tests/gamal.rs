use third_party_reporting::lib_gamal::{
    decrypt, elgamal_dec, elgamal_enc, elgamal_keygen, encrypt, pre_dec, pre_elgamal_dec,
    pre_elgamal_enc, pre_enc, pre_re_enc, size_of_el_gamal_ct,
};
use third_party_reporting::lib_mod_priv::Moderator;

#[test]
fn pre_round_trip_through_re_encryption() {
    // The moderator holds x1·g, x2 and the re-key x2·x1⁻¹.
    let m = Moderator::new().unwrap();
    let msg = b"the tag vector".to_vec();
    let (ct, body, nonce) = pre_enc(&m.pk_enc_1, &msg).unwrap();
    let ct2 = pre_re_enc(&ct, &m.k1_2).unwrap();
    assert_eq!(pre_dec(&m.sk_enc, &(ct2, body.clone()), &nonce), Some(msg.clone()));
    // without re-encryption the second key does not decrypt
    assert_eq!(pre_dec(&m.sk_enc, &(ct, body), &nonce), None);
}

#[test]
fn pre_point_round_trip() {
    let m = Moderator::new().unwrap();
    let (_x, p) = elgamal_keygen();
    let ct = pre_elgamal_enc(&m.pk_enc_1, &p).unwrap();
    let ct2 = pre_re_enc(&ct, &m.k1_2).unwrap();
    assert_eq!(pre_elgamal_dec(&m.sk_enc, &ct2), Some(p));
}

#[test]
fn elgamal_round_trip() {
    let (x, h) = elgamal_keygen();
    let (_y, p) = elgamal_keygen();
    let ct = elgamal_enc(&h, &p).unwrap();
    assert_eq!(elgamal_dec(&x, &ct), Some(p));
    let msg = vec![42u8; 100];
    let (ct, body, nonce) = encrypt(&h, &msg).unwrap();
    assert_eq!(decrypt(&x, &(ct, body), &nonce), Some(msg));
}

#[test]
fn invalid_points_are_refused() {
    let (_x, p) = elgamal_keygen();
    let bad = [0xffu8; 32];
    assert_eq!(elgamal_enc(&bad, &p), None);
    assert_eq!(pre_elgamal_enc(&p, &bad), None);
    assert_eq!(pre_enc(&bad, &vec![1u8]), None);
}

#[test]
fn hybrid_ciphertext_size() {
    let (_x, h) = elgamal_keygen();
    let ct = encrypt(&h, &vec![0u8; 10]).unwrap();
    // two points, ten bytes and a 16-byte tag, a 12-byte nonce
    assert_eq!(size_of_el_gamal_ct(ct), 32 + 32 + 26 + 12);
}
