use third_party_reporting::lib_basic::{
    test_basic_init_clients, test_basic_setup_mod, test_basic_setup_platform, Client, Moderator,
    Platform,
};
use third_party_reporting::lib_common::ReportError;

fn random_bytes(n: usize) -> Vec<u8> {
    (0..n).map(|_| rand::random::<u8>()).collect()
}

#[test]
fn basic_four_moderators_designated_accepts() {
    let mut platform = test_basic_setup_platform();
    let (mods, pks) = test_basic_setup_mod(&mut platform, 4);
    assert_eq!(platform.sk_p.len(), 4);
    let clients = test_basic_init_clients(1);
    let key = clients[0].msg_key;
    let ctx = random_bytes(100);
    let (c1, c2, ad) = Client::send(&key, "report this", 2).unwrap();
    assert_eq!(ad, 2);
    let (sigma, st) = Platform::process(&platform.sk_p, &c1, &c2, ad, &ctx).unwrap();
    let (m, id, rd) = Client::read(&key, &pks, &c1, &c2, &sigma, &st).unwrap();
    assert_eq!(m, "report this");
    assert_eq!(id, 2);
    let report = Client::report_gen(&m, &rd);
    assert_eq!(Moderator::moderate(&mods[2].sk_enc, &mods[2].sk_p, &m, &report), Ok(ctx.clone()));
    assert_eq!(
        Moderator::moderate(&mods[0].sk_enc, &mods[0].sk_p, &m, &report),
        Err(ReportError::Reject)
    );
}

#[test]
fn basic_report_from_stored_document_is_stateless() {
    let mut platform = Platform::new();
    let (mods, pks) = test_basic_setup_mod(&mut platform, 1);
    let client = Client::new();
    let (c1, c2, ad) = Client::send(&client.msg_key, "again and again", 0).unwrap();
    let (sigma, st) = Platform::process(&platform.sk_p, &c1, &c2, ad, &b"ctx".to_vec()).unwrap();
    let (m, _id, rd) = Client::read(&client.msg_key, &pks, &c1, &c2, &sigma, &st).unwrap();
    for _ in 0..200 {
        let report = Client::report_gen(&m, &rd);
        assert_eq!(Moderator::moderate(&mods[0].sk_enc, &mods[0].sk_p, &m, &report), Ok(b"ctx".to_vec()));
    }
}

#[test]
fn basic_tampering_is_rejected() {
    let mut platform = Platform::new();
    let (mods, pks) = test_basic_setup_mod(&mut platform, 2);
    let client = Client::new();
    let (c1, c2, ad) = Client::send(&client.msg_key, "hello", 1).unwrap();
    let (sigma, st) = Platform::process(&platform.sk_p, &c1, &c2, ad, &b"ctx".to_vec()).unwrap();
    let (m, _id, rd) = Client::read(&client.msg_key, &pks, &c1, &c2, &sigma, &st).unwrap();
    let report = Client::report_gen(&m, &rd);
    let md = &mods[1];
    // other message
    assert_eq!(Moderator::moderate(&md.sk_enc, &md.sk_p, "hellO", &report), Err(ReportError::Reject));
    // context
    let mut r2 = Client::report_gen(&m, &rd);
    r2.2[0] ^= 1;
    assert_eq!(Moderator::moderate(&md.sk_enc, &md.sk_p, &m, &r2), Err(ReportError::Reject));
    // commitment
    let mut r3 = Client::report_gen(&m, &rd);
    r3.1[3] ^= 1;
    assert_eq!(Moderator::moderate(&md.sk_enc, &md.sk_p, &m, &r3), Err(ReportError::Reject));
    // the encrypted tag: either no longer a point or a different point
    let mut r4 = Client::report_gen(&m, &rd);
    r4.3 .1[0] ^= 1;
    assert!(Moderator::moderate(&md.sk_enc, &md.sk_p, &m, &r4).is_err());
    // the inner ciphertext
    let mut bad_c1 = c1.clone();
    bad_c1[12] ^= 1;
    assert_eq!(
        Client::read(&client.msg_key, &pks, &bad_c1, &c2, &sigma, &st).map(|x| x.1),
        Err(ReportError::Reject)
    );
}

#[test]
fn basic_errors() {
    let mut platform = Platform::new();
    let (_mods, pks) = test_basic_setup_mod(&mut platform, 1);
    let client = Client::new();
    let (c1, c2, _ad) = Client::send(&client.msg_key, "hello", 5).unwrap();
    // the moderator index is outside the registry
    assert_eq!(
        Platform::process(&platform.sk_p, &c1, &c2, 5, &vec![]).map(|x| x.1),
        Err(ReportError::Invariant)
    );
    // a registry key that is not a point
    let bad = vec![([0u8; 64], [0xffu8; 32])];
    assert_eq!(Platform::process(&bad, &c1, &c2, 0, &vec![]).map(|x| x.1), Err(ReportError::Malformed));
    let (sigma, _st) = Platform::process(&platform.sk_p, &c1, &c2, 0, &vec![]).unwrap();
    // the reader names a moderator outside its key list
    assert_eq!(
        Client::read(&client.msg_key, &pks, &c1, &c2, &sigma, &(vec![], 5)).map(|x| x.1),
        Err(ReportError::Invariant)
    );
    // a report whose encrypted tag is not made of points
    let report = ([0u8; 32], c2.clone(), vec![], ([0xffu8; 32], [0xffu8; 32]));
    assert_eq!(
        Moderator::moderate(&[1u8; 32], &[0u8; 64], "hello", &report),
        Err(ReportError::Malformed)
    );
}

#[test]
fn basic_setup_platform_has_no_keys() {
    let mut platform = Platform::new();
    assert_eq!(platform.setup_platform(), (None, None));
    assert!(platform.sk_p.is_empty());
}
