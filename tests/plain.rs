use third_party_reporting::lib_common::{channel_seal, ReportError};
use third_party_reporting::lib_plain::{Client, Moderator};

fn flip(v: &mut Vec<u8>, i: usize) {
    v[i] ^= 1;
}

#[test]
fn plain_round_trip_accepts() {
    let k_r = [0u8; 32];
    let moderator = Moderator::new();
    let (c1, c2) = Client::send("hello", k_r).unwrap();
    let sigma = Moderator::mod_process(&moderator.k_m, &c2, "ctx1");
    let (m, ctx, rd, sigma) = Client::read(k_r, c1, (c2, "ctx1".to_string(), sigma)).unwrap();
    assert_eq!(m, "hello");
    assert_eq!(ctx, "ctx1");
    assert!(Moderator::moderate(&moderator.k_m, &m, &ctx, rd, sigma));
}

#[test]
fn plain_moderate_is_repeatable() {
    let k_r = [7u8; 32];
    let moderator = Moderator::new();
    let (c1, c2) = Client::send("repeat me", k_r).unwrap();
    let sigma = Moderator::mod_process(&moderator.k_m, &c2, "c");
    let (m, ctx, rd, sigma) = Client::read(k_r, c1, (c2, "c".to_string(), sigma)).unwrap();
    for _ in 0..3 {
        assert!(Moderator::moderate(&moderator.k_m, &m, &ctx, rd.clone(), sigma.clone()));
    }
}

#[test]
fn plain_other_message_is_rejected() {
    let k_r = [1u8; 32];
    let moderator = Moderator::new();
    let (c1, c2) = Client::send("hello", k_r).unwrap();
    let sigma = Moderator::mod_process(&moderator.k_m, &c2, "ctx1");
    let (_m, ctx, rd, sigma) = Client::read(k_r, c1, (c2, "ctx1".to_string(), sigma)).unwrap();
    assert!(!Moderator::moderate(&moderator.k_m, "hellp", &ctx, rd, sigma));
}

#[test]
fn plain_flipped_bits_are_rejected() {
    let k_r = [2u8; 32];
    let moderator = Moderator::new();
    let (c1, c2) = Client::send("hello", k_r).unwrap();
    let sigma = Moderator::mod_process(&moderator.k_m, &c2, "ctx1");
    // inner ciphertext: the body starts after the 8-byte length
    let mut bad_c1 = c1.clone();
    flip(&mut bad_c1, 10);
    assert_eq!(
        Client::read(k_r, bad_c1, (c2.clone(), "ctx1".to_string(), sigma.clone())),
        Err(ReportError::Reject)
    );
    // commitment
    let mut bad_c2 = c2.clone();
    flip(&mut bad_c2, 0);
    assert_eq!(
        Client::read(k_r, c1.clone(), (bad_c2, "ctx1".to_string(), sigma.clone())),
        Err(ReportError::Reject)
    );
    let (m, ctx, rd, sigma) = Client::read(k_r, c1, (c2, "ctx1".to_string(), sigma)).unwrap();
    // tag
    let mut bad_sigma = sigma.clone();
    flip(&mut bad_sigma, 31);
    assert!(!Moderator::moderate(&moderator.k_m, &m, &ctx, rd.clone(), bad_sigma));
    // context
    assert!(!Moderator::moderate(&moderator.k_m, &m, "ctx2", rd.clone(), sigma.clone()));
    // commitment in the report
    let mut bad_rd = rd.clone();
    flip(&mut bad_rd.1, 5);
    assert!(!Moderator::moderate(&moderator.k_m, &m, &ctx, bad_rd, sigma));
}

#[test]
fn plain_wrong_channel_key_is_rejected() {
    let (c1, c2) = Client::send("hello", [3u8; 32]).unwrap();
    let r = Client::read([4u8; 32], c1, (c2, String::new(), vec![0u8; 32]));
    assert_eq!(r, Err(ReportError::Reject));
}

#[test]
fn plain_malformed_payload_is_reported() {
    let k_r = [5u8; 32];
    // a payload that is not a framed message followed by a 32-byte key
    let c1 = channel_seal(&k_r, &vec![1u8, 2, 3]).unwrap();
    let r = Client::read(k_r, c1, (vec![0u8; 32], String::new(), vec![0u8; 32]));
    assert_eq!(r, Err(ReportError::Malformed));
}

#[test]
fn plain_client_keeps_its_key() {
    let c = Client::new([9u8; 32]);
    assert_eq!(c.k_r, [9u8; 32]);
}
