use blstrs::{G1Projective, G2Projective, Scalar};
use ff::Field;
use group::{Curve, Group};
use third_party_reporting::lib_common::ReportError;
use third_party_reporting::lib_constant_mod_priv::{
    test_init_clients, test_setup_mod, test_setup_mod_with, test_setup_platform, Client, Moderator,
    Platform,
};

fn report_size(r: &third_party_reporting::lib_constant_mod_priv::Report) -> usize {
    r.0.len() + r.1.len() + r.2.len() + r.3.len() + 64 + r.4 .1.len() + r.4 .2.len()
}

#[test]
fn const_mod_priv_sixty_four_moderators_empty_ctx() {
    let mut platform = test_setup_platform().unwrap();
    let (mods, pks) = test_setup_mod(&mut platform, 64).unwrap();
    let clients = test_init_clients(1);
    let key = clients[0].msg_key;
    let target = 40usize;
    let (c1, c2, ad) = Client::send(&key, "abuse", target as u32, &pks[target]).unwrap();
    let (sigma, st) =
        Platform::process(&platform.k_p, &platform.sk_p, &c1, &c2, &ad, &vec![]).unwrap();
    let (m, id, rd) = Client::read(&key, &pks, &c1, &c2, &sigma, &st).unwrap();
    assert_eq!((m.as_str(), id as usize), ("abuse", target));
    let report = Client::report_gen(&m, &rd);
    let md = &mods[target];
    assert_eq!(Moderator::moderate(&md.sk_enc, &md.k, &md.sk_p, target, &m, &report), Ok(vec![]));
    // the stored franking key with one bit flipped
    let mut bad = Client::report_gen(&m, &rd);
    bad.1[0] ^= 1;
    assert_eq!(
        Moderator::moderate(&md.sk_enc, &md.k, &md.sk_p, target, &m, &bad),
        Err(ReportError::Reject)
    );
    // another moderator
    let other = &mods[3];
    assert_eq!(
        Moderator::moderate(&other.sk_enc, &other.k, &other.sk_p, 3, &m, &report),
        Err(ReportError::Reject)
    );
}

#[test]
fn const_mod_priv_report_size_is_independent_of_moderators() {
    let msg: String = std::iter::repeat('m').take(1024).collect();
    let mut sizes = Vec::new();
    for n in [1usize, 8] {
        let mut platform = Platform::new().unwrap();
        let (mods, pks) = test_setup_mod(&mut platform, n).unwrap();
        let client = Client::new();
        let (c1, c2, ad) = Client::send(&client.msg_key, &msg, 0, &pks[0]).unwrap();
        let ctx = b"ctx".to_vec();
        let (sigma, st) =
            Platform::process(&platform.k_p, &platform.sk_p, &c1, &c2, &ad, &ctx).unwrap();
        let (m, _id, rd) = Client::read(&client.msg_key, &pks, &c1, &c2, &sigma, &st).unwrap();
        let report = Client::report_gen(&m, &rd);
        assert_eq!(Moderator::moderate(&mods[0].sk_enc, &mods[0].k, &mods[0].sk_p, 0, &m, &report), Ok(ctx));
        sizes.push(report_size(&report));
    }
    assert_eq!(sizes[0], sizes[1]);
}

#[test]
fn const_mod_priv_tampering_is_rejected() {
    let mut platform = Platform::new().unwrap();
    let (mods, pks) = test_setup_mod(&mut platform, 2).unwrap();
    let client = Client::new();
    let (c1, c2, ad) = Client::send(&client.msg_key, "hello", 1, &pks[1]).unwrap();
    let ctx = b"ctx".to_vec();
    let (sigma, st) = Platform::process(&platform.k_p, &platform.sk_p, &c1, &c2, &ad, &ctx).unwrap();
    let md = &mods[1];
    // the context
    let mut st2 = st.clone();
    st2.3[0] ^= 1;
    let (m, _id, rd) = Client::read(&client.msg_key, &pks, &c1, &c2, &sigma, &st2).unwrap();
    let report = Client::report_gen(&m, &rd);
    assert_eq!(Moderator::moderate(&md.sk_enc, &md.k, &md.sk_p, 1, &m, &report), Err(ReportError::Reject));
    // the message
    let (m, _id, rd) = Client::read(&client.msg_key, &pks, &c1, &c2, &sigma, &st).unwrap();
    let report = Client::report_gen(&m, &rd);
    assert_eq!(Moderator::moderate(&md.sk_enc, &md.k, &md.sk_p, 1, "hellO", &report), Err(ReportError::Reject));
    // the token
    let mut bad = Client::report_gen(&m, &rd);
    bad.3[5] ^= 1;
    assert!(Moderator::moderate(&md.sk_enc, &md.k, &md.sk_p, 1, &m, &bad).is_err());
    // the payload names moderator 0, the keys are moderator 1's
    let (c1, c2, ad) = Client::send(&client.msg_key, "hello", 0, &pks[1]).unwrap();
    let (sigma, st) = Platform::process(&platform.k_p, &platform.sk_p, &c1, &c2, &ad, &ctx).unwrap();
    assert_eq!(
        Client::read(&client.msg_key, &pks, &c1, &c2, &sigma, &st).map(|x| x.1),
        Err(ReportError::Reject)
    );
}

#[test]
fn token_identity_holds_on_curve() {
    let mut rng = rand::thread_rng();
    let kp = Scalar::random(&mut rng);
    let r_prime = Scalar::random(&mut rng);
    let r = Scalar::random(&mut rng);
    let k = Scalar::random(&mut rng);
    let h = G1Projective::random(&mut rng);
    let g2 = G2Projective::generator();
    let kp_inv = kp.invert().unwrap();
    let lhs = blstrs::pairing(&(h * (kp * r_prime)).to_affine(), &(g2 * (r * k * kp_inv)).to_affine());
    let rhs = blstrs::pairing(&(h * (k * r_prime)).to_affine(), &g2.to_affine()) * r;
    assert_eq!(lhs, rhs);
}

#[test]
fn const_mod_priv_keys_from_values() {
    let mut k_p = [0u8; 32];
    k_p[0] = 9;
    let mut platform = Platform::from_secret(k_p).unwrap();
    assert_eq!(platform.k_p, k_p);
    assert!(matches!(Platform::from_secret([0u8; 32]), Err(ReportError::Rng)));
    assert!(matches!(Platform::from_secret([0xffu8; 32]), Err(ReportError::Malformed)));
    let mut x1 = [0u8; 32];
    x1[0] = 3;
    let mut x2 = [0u8; 32];
    x2[0] = 5;
    let mut k = [0u8; 32];
    k[0] = 11;
    let m = Moderator::from_keys(x1, x2, [7u8; 32], k, &platform.k_reg).unwrap();
    assert_eq!(m.k, k);
    assert!(matches!(Moderator::from_keys(x1, x2, [7u8; 32], [0xffu8; 32], &platform.k_reg), Err(ReportError::Malformed)));
    assert!(matches!(Moderator::from_keys([0u8; 32], x2, [7u8; 32], k, &platform.k_reg), Err(ReportError::Rng)));
    let (mods, pks) = test_setup_mod_with(&mut platform, &vec![(x1, x2, [1u8; 32], k)]).unwrap();
    assert_eq!(pks[0].3.point, mods[0].pk_proc.point);
    // the registered moderator accepts an honest report
    let client = Client::new();
    let (c1, c2, ad) = Client::send(&client.msg_key, "hi", 0, &pks[0]).unwrap();
    let (sigma, st) = Platform::process(&platform.k_p, &platform.sk_p, &c1, &c2, &ad, &b"c".to_vec()).unwrap();
    let (msg, _id, rd) = Client::read(&client.msg_key, &pks, &c1, &c2, &sigma, &st).unwrap();
    let report = Client::report_gen(&msg, &rd);
    assert_eq!(Moderator::moderate(&mods[0].sk_enc, &mods[0].k, &mods[0].sk_p, 0, &msg, &report), Ok(b"c".to_vec()));
}
