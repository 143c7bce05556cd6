use third_party_reporting::lib_common::ReportError;
use third_party_reporting::lib_mod_priv::{
    test_init_clients, test_setup_mod, test_setup_mod_with, test_setup_platform, Client, Moderator,
    Platform,
};

fn random_message(n: usize) -> String {
    (0..n).map(|_| (b'a' + rand::random::<u8>() % 26) as char).collect()
}

#[test]
fn mod_priv_sixteen_moderators() {
    let mut platform = test_setup_platform();
    let (mods, pks) = test_setup_mod(&mut platform, 16).unwrap();
    let clients = test_init_clients(1);
    let key = clients[0].msg_key;
    let msg = random_message(128);
    let target = 9usize;
    let (c1, c2, epk) = Client::send(&key, &msg, target as u32, &pks[target]).unwrap();
    let ctx = b"sent at noon".to_vec();
    let (sigma, st) = Platform::process(&platform.sk_p, &c1, &c2, &epk, &ctx).unwrap();
    let (m, id, rd) = Client::read(&key, &pks, &c1, &c2, &sigma, &st).unwrap();
    assert_eq!(m, msg);
    assert_eq!(id as usize, target);
    let report = Client::report_gen(&m, &rd).unwrap();
    for (i, md) in mods.iter().enumerate() {
        let r = Moderator::moderate(&md.sk_enc, &md.sk_p, i, &m, &report);
        if i == target {
            assert_eq!(r, Ok(ctx.clone()));
        } else {
            assert_eq!(r, Err(ReportError::Reject));
        }
    }
    // the designated moderator again: same answer
    let md = &mods[target];
    assert_eq!(Moderator::moderate(&md.sk_enc, &md.sk_p, target, &m, &report), Ok(ctx));
}

#[test]
fn mod_priv_other_moderator_fails_reportability() {
    let mut platform = Platform::new();
    let (_mods, pks) = test_setup_mod(&mut platform, 4).unwrap();
    let client = Client::new();
    // the payload names moderator 1, but the ephemeral key is made for moderator 3
    let (c1, c2, epk) = Client::send(&client.msg_key, "hello", 1, &pks[3]).unwrap();
    let (sigma, st) = Platform::process(&platform.sk_p, &c1, &c2, &epk, &vec![]).unwrap();
    assert_eq!(
        Client::read(&client.msg_key, &pks, &c1, &c2, &sigma, &st).map(|x| x.1),
        Err(ReportError::Reject)
    );
}

#[test]
fn mod_priv_replay_to_other_moderator_is_rejected() {
    let mut platform = Platform::new();
    let (mods, pks) = test_setup_mod(&mut platform, 2).unwrap();
    let client = Client::new();
    let (c1, c2, epk) = Client::send(&client.msg_key, "hello", 0, &pks[0]).unwrap();
    let (sigma, st) = Platform::process(&platform.sk_p, &c1, &c2, &epk, &b"x".to_vec()).unwrap();
    let (m, _id, rd) = Client::read(&client.msg_key, &pks, &c1, &c2, &sigma, &st).unwrap();
    let report = Client::report_gen(&m, &rd).unwrap();
    assert_eq!(Moderator::moderate(&mods[0].sk_enc, &mods[0].sk_p, 0, &m, &report), Ok(b"x".to_vec()));
    assert_eq!(
        Moderator::moderate(&mods[1].sk_enc, &mods[1].sk_p, 1, &m, &report),
        Err(ReportError::Reject)
    );
    // moderator 1's tagging key at moderator 0's slot
    assert_eq!(
        Moderator::moderate(&mods[0].sk_enc, &mods[1].sk_p, 0, &m, &report),
        Err(ReportError::Reject)
    );
}

#[test]
fn mod_priv_tampering_is_rejected() {
    let mut platform = Platform::new();
    let (mods, pks) = test_setup_mod(&mut platform, 2).unwrap();
    let client = Client::new();
    let (c1, c2, epk) = Client::send(&client.msg_key, "hello", 1, &pks[1]).unwrap();
    let (sigma, st) = Platform::process(&platform.sk_p, &c1, &c2, &epk, &b"ctx".to_vec()).unwrap();
    let md = &mods[1];
    // the encrypted tag body
    let mut bad_sigma = sigma.clone();
    bad_sigma.1[0] ^= 1;
    let (m, _id, rd) = Client::read(&client.msg_key, &pks, &c1, &c2, &bad_sigma, &st).unwrap();
    let report = Client::report_gen(&m, &rd).unwrap();
    assert_eq!(Moderator::moderate(&md.sk_enc, &md.sk_p, 1, &m, &report), Err(ReportError::Reject));
    // the context
    let (m, _id, rd) = Client::read(&client.msg_key, &pks, &c1, &c2, &sigma, &st).unwrap();
    let mut report = Client::report_gen(&m, &rd).unwrap();
    report.2.push(b'!');
    assert_eq!(Moderator::moderate(&md.sk_enc, &md.sk_p, 1, &m, &report), Err(ReportError::Reject));
    // the message
    let report = Client::report_gen(&m, &rd).unwrap();
    assert_eq!(Moderator::moderate(&md.sk_enc, &md.sk_p, 1, "other", &report), Err(ReportError::Reject));
    // an invalid ephemeral key
    assert_eq!(
        Platform::process(&platform.sk_p, &c1, &c2, &[0xffu8; 32], &vec![]).map(|x| x.1),
        Err(ReportError::Malformed)
    );
    // a moderator index outside the key list
    let (c1, c2, epk) = Client::send(&client.msg_key, "hello", 7, &pks[1]).unwrap();
    let (sigma, st) = Platform::process(&platform.sk_p, &c1, &c2, &epk, &vec![]).unwrap();
    assert_eq!(
        Client::read(&client.msg_key, &pks, &c1, &c2, &sigma, &st).map(|x| x.1),
        Err(ReportError::Invariant)
    );
}

#[test]
fn mod_priv_zero_mask_is_an_rng_error() {
    let mut platform = Platform::new();
    let (_mods, pks) = test_setup_mod(&mut platform, 1).unwrap();
    let client = Client::new();
    let r = Client::send_with(&client.msg_key, "hello", 0, &pks[0], &[0u8; 32], [1u8; 32]);
    assert_eq!(r.map(|x| x.1), Err(ReportError::Rng));
    // an invalid first public key
    let bad = ([0xffu8; 32], pks[0].1, pks[0].2);
    let r = Client::send_with(&client.msg_key, "hello", 0, &bad, &[3u8; 32], [1u8; 32]);
    assert_eq!(r.map(|x| x.1), Err(ReportError::Malformed));
}

#[test]
fn mod_priv_moderator_from_keys() {
    let mut x1 = [0u8; 32];
    x1[0] = 3;
    let mut x2 = [0u8; 32];
    x2[0] = 5;
    let m = Moderator::from_keys(x1, x2, [7u8; 32]).unwrap();
    assert_eq!(m.sk_enc, x2);
    assert_eq!(m.sk_p, [7u8; 32]);
    assert!(matches!(Moderator::from_keys([0u8; 32], x2, [7u8; 32]), Err(ReportError::Rng)));
    assert!(matches!(Moderator::from_keys(x1, [0u8; 32], [7u8; 32]), Err(ReportError::Rng)));
    // a registry built from given keys, and one key triple that is unusable
    let mut platform = Platform::new();
    let (mods, pks) = test_setup_mod_with(&mut platform, &vec![(x1, x2, [1u8; 32]), (x2, x1, [2u8; 32])]).unwrap();
    assert_eq!(mods.len(), 2);
    assert_eq!(pks[1].1, mods[1].pk_enc_2);
    assert_eq!(platform.sk_p[0].0, [1u8; 32]);
    let r = test_setup_mod_with(&mut platform, &vec![(x1, [0u8; 32], [1u8; 32])]);
    assert!(matches!(r, Err(ReportError::Rng)));
}

#[test]
fn mod_priv_flipped_commitment_is_rejected_at_read() {
    let mut platform = Platform::new();
    let (_mods, pks) = test_setup_mod(&mut platform, 2).unwrap();
    let client = Client::new();
    let (c1, c2, epk) = Client::send(&client.msg_key, "hello", 0, &pks[0]).unwrap();
    let (sigma, st) = Platform::process(&platform.sk_p, &c1, &c2, &epk, &vec![]).unwrap();
    let mut bad_c2 = c2.clone();
    bad_c2[0] ^= 1;
    assert_eq!(
        Client::read(&client.msg_key, &pks, &c1, &bad_c2, &sigma, &st).map(|x| x.1),
        Err(ReportError::Reject)
    );
    let mut bad_c1 = c1.clone();
    bad_c1[20] ^= 1;
    assert_eq!(
        Client::read(&client.msg_key, &pks, &bad_c1, &c2, &sigma, &st).map(|x| x.1),
        Err(ReportError::Reject)
    );
}
