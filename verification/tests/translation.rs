use hammurabi::chain::CertInput;
use hammurabi::chain::append_revocation_facts;
use hammurabi::chain::parse_chain;
use hammurabi::encode::fingerprint_hex;
use hammurabi::errors::Error;
use hammurabi::facts::Fact;
use hammurabi::facts::render_document;
use hammurabi::trust::load_trust_ders;

use openssl::asn1::Asn1Time;
use openssl::bn::BigNum;
use openssl::hash::MessageDigest;
use openssl::pkey::PKey;
use openssl::pkey::Private;
use openssl::rsa::Rsa;
use openssl::x509::X509;
use openssl::x509::X509Builder;
use openssl::x509::X509NameBuilder;

fn new_key() -> PKey<Private> {
    PKey::from_rsa(Rsa::generate(2048).unwrap()).unwrap()
}

fn make_cert(subject_cn: &str, issuer_cn: &str, key: &PKey<Private>, signer: &PKey<Private>) -> X509 {
    let mut subject = X509NameBuilder::new().unwrap();
    subject.append_entry_by_text("CN", subject_cn).unwrap();
    let subject = subject.build();
    let mut issuer = X509NameBuilder::new().unwrap();
    issuer.append_entry_by_text("CN", issuer_cn).unwrap();
    let issuer = issuer.build();
    let mut b = X509Builder::new().unwrap();
    b.set_version(2).unwrap();
    b.set_subject_name(&subject).unwrap();
    b.set_issuer_name(&issuer).unwrap();
    b.set_pubkey(key).unwrap();
    let serial = BigNum::from_u32(1).unwrap().to_asn1_integer().unwrap();
    b.set_serial_number(&serial).unwrap();
    b.set_not_before(&Asn1Time::days_from_now(0).unwrap()).unwrap();
    b.set_not_after(&Asn1Time::days_from_now(365).unwrap()).unwrap();
    b.sign(signer, MessageDigest::sha256()).unwrap();
    b.build()
}

fn input(cert: &X509, attrs: &str) -> CertInput {
    CertInput { der: cert.to_der().unwrap(), attrs: Some(attrs.to_string()) }
}

fn fingerprint_count(facts: &[Fact]) -> usize {
    facts.iter().filter(|f| matches!(f, Fact::Fingerprint { .. })).count()
}

fn issuer_links(facts: &[Fact]) -> Vec<(u64, u64)> {
    facts
        .iter()
        .filter_map(|f| match f {
            Fact::IssuerLink { subject, issuer } => Some((*subject, *issuer)),
            _ => None,
        })
        .collect()
}

#[test]
fn verified_intermediate_gets_one_issuer_fact_and_increasing_ids() {
    let ca_key = new_key();
    let leaf_key = new_key();
    let ca = make_cert("Test Root", "Test Root", &ca_key, &ca_key);
    let leaf = make_cert("leaf.example", "Test Root", &leaf_key, &ca_key);
    let chain = vec![input(&leaf, "isCA(cert_0, false).\n"), input(&ca, "isCA(cert_1, true).\n")];
    let roots: Vec<CertInput> = Vec::new();
    let t = parse_chain(&chain, None, false, true, &roots).unwrap();
    assert_eq!(fingerprint_count(&t.facts), 2);
    assert_eq!(issuer_links(&t.facts), vec![(0, 1)]);
    let ids: Vec<u64> = t
        .facts
        .iter()
        .filter_map(|f| match f {
            Fact::Fingerprint { id, .. } => Some(*id),
            _ => None,
        })
        .collect();
    assert_eq!(ids, vec![0, 1]);
    assert_eq!(t.revocations.len(), 1);
    assert!(t.revocations[0].check_staple);
    assert_eq!(t.revocations[0].subject_der, leaf.to_der().unwrap());
    assert_eq!(t.revocations[0].issuer_der, ca.to_der().unwrap());
    assert!(!t.found_issuer);
    match &t.facts[0] {
        Fact::Fingerprint { id, hex } => {
            assert_eq!(*id, 0);
            assert_eq!(hex, &fingerprint_hex(&leaf.to_der().unwrap()));
            assert_eq!(hex.len(), 64);
            assert!(hex.chars().all(|c| c.is_ascii_hexdigit() && !c.is_ascii_lowercase()));
        },
        other => panic!("leaf fact out of place: {:?}", other),
    }
}

#[test]
fn two_intermediates_chain_in_order() {
    let root_key = new_key();
    let mid_key = new_key();
    let leaf_key = new_key();
    let root = make_cert("Test Root", "Test Root", &root_key, &root_key);
    let mid = make_cert("Mid CA", "Test Root", &mid_key, &root_key);
    let leaf = make_cert("leaf.example", "Mid CA", &leaf_key, &mid_key);
    let chain = vec![
        input(&leaf, "isCA(cert_0, false).\n"),
        input(&mid, "isCA(cert_1, true).\n"),
        input(&root, "isCA(cert_2, true).\n"),
    ];
    let t = parse_chain(&chain, None, true, true, &Vec::new()).unwrap();
    assert_eq!(fingerprint_count(&t.facts), 3);
    assert_eq!(issuer_links(&t.facts), vec![(0, 1), (1, 2)]);
    assert_eq!(t.revocations.len(), 2);
    assert!(t.revocations[0].check_staple);
    assert!(!t.revocations[1].check_staple);
    assert!(t.revocations[0].check_ocsp && t.revocations[1].check_ocsp);
    assert_eq!(t.revocations[1].subject_der, t.revocations[0].issuer_der);
}

#[test]
fn unverifiable_intermediate_fails_with_invalid_signature() {
    let ca_key = new_key();
    let other_key = new_key();
    let leaf_key = new_key();
    let ca = make_cert("Test Root", "Test Root", &ca_key, &ca_key);
    // The leaf claims the root as issuer but is signed by a stranger's key.
    let leaf = make_cert("leaf.example", "Test Root", &leaf_key, &other_key);
    let chain = vec![input(&leaf, "isCA(cert_0, false).\n"), input(&ca, "isCA(cert_1, true).\n")];
    let r = parse_chain(&chain, None, false, false, &Vec::new());
    assert_eq!(r.unwrap_err(), Error::OpenSSLInvalid);
    assert_eq!(
        hammurabi::rows::row_result_line("AB", "Host.example", &Err(Error::OpenSSLInvalid)),
        "AB,host.example,OpenSSLInvalid\n"
    );
    // Rows keep to their own job directories whatever one row's outcome is.
    assert_ne!(
        hammurabi::rows::job_dir_name("chrome", "", 1, 1),
        hammurabi::rows::job_dir_name("chrome", "", 1, 2)
    );
}

#[test]
fn unparsable_intermediate_fails_as_engine_failure() {
    let leaf_key = new_key();
    let leaf = make_cert("leaf.example", "leaf.example", &leaf_key, &leaf_key);
    let chain = vec![
        input(&leaf, "isCA(cert_0, false).\n"),
        CertInput { der: vec![0u8, 1, 2, 3], attrs: Some("isCA(cert_1, true).\n".to_string()) },
    ];
    let r = parse_chain(&chain, None, false, false, &Vec::new());
    assert_eq!(r.unwrap_err(), Error::OpenSSLFailed);
}

#[test]
fn undecodable_leaf_fails_with_parsing_error() {
    let ca_key = new_key();
    let ca = make_cert("Test Root", "Test Root", &ca_key, &ca_key);
    let chain = vec![CertInput { der: ca.to_der().unwrap(), attrs: None }];
    let r = parse_chain(&chain, None, false, false, &Vec::new());
    assert_eq!(r.unwrap_err(), Error::X509ParsingError);
}

#[test]
fn lone_leaf_is_the_member_root_discovery_tests() {
    let ca_key = new_key();
    let leaf_key = new_key();
    let ca = make_cert("Test Root", "Test Root", &ca_key, &ca_key);
    let leaf = make_cert("leaf.example", "Test Root", &leaf_key, &ca_key);
    let chain = vec![input(&leaf, "isCA(cert_0, false).\n")];
    let roots = vec![input(&ca, "isCA(cert_1, true).\n")];
    let t = parse_chain(&chain, None, true, false, &roots).unwrap();
    // The trust-store entry issued the leaf: one discovered root.
    assert!(t.found_issuer);
    assert_eq!(fingerprint_count(&t.facts), 2);
    assert_eq!(issuer_links(&t.facts), vec![(0, 1)]);
    assert_eq!(t.revocations.len(), 1);
    assert!(t.revocations[0].check_ocsp);
    assert!(!t.revocations[0].check_staple);
    assert_eq!(t.revocations[0].issuer_der, ca.to_der().unwrap());
}

#[test]
fn chain_without_discovered_root_keeps_counts() {
    let leaf_key = new_key();
    let leaf = make_cert("leaf.example", "Nobody", &leaf_key, &leaf_key);
    let chain = vec![input(&leaf, "isCA(cert_0, false).\n")];
    let t = parse_chain(&chain, None, false, false, &Vec::new()).unwrap();
    // N = 1, k = 0: one fingerprint fact, no issuer fact, no pairs.
    assert_eq!(fingerprint_count(&t.facts), 1);
    assert_eq!(issuer_links(&t.facts), Vec::<(u64, u64)>::new());
    assert_eq!(t.revocations.len(), 0);
    assert!(!t.found_issuer);
}

#[test]
fn revocation_blocks_are_appended_and_rendered() {
    let leaf_key = new_key();
    let leaf = make_cert("leaf.example", "leaf.example", &leaf_key, &leaf_key);
    let chain = vec![input(&leaf, "isCA(cert_0, false).\n")];
    let mut t = parse_chain(&chain, None, true, true, &Vec::new()).unwrap();
    let blocks = vec!["ocspResponse(cert_0, verified).\n".to_string()];
    append_revocation_facts(&mut t.facts, &blocks);
    assert_eq!(
        t.facts.last(),
        Some(&Fact::Revocation { block: "ocspResponse(cert_0, verified).\n".to_string() })
    );
    let doc = render_document(&t.facts);
    assert!(doc.ends_with("ocspResponse(cert_0, verified).\n"));
}

#[test]
fn trust_bundle_splits_on_the_end_marker() {
    let k1 = new_key();
    let k2 = new_key();
    let c1 = make_cert("Root One", "Root One", &k1, &k1);
    let c2 = make_cert("Root Two", "Root Two", &k2, &k2);
    let mut bundle = String::from_utf8(c1.to_pem().unwrap()).unwrap();
    bundle.push_str("\n");
    bundle.push_str(&String::from_utf8(c2.to_pem().unwrap()).unwrap());
    bundle.push_str("\n   \n");
    let ders = load_trust_ders(&bundle).unwrap();
    assert_eq!(ders.len(), 2);
    assert_eq!(ders[0], c1.to_der().unwrap());
    assert_eq!(ders[1], c2.to_der().unwrap());
    assert_eq!(load_trust_ders("").unwrap().len(), 0);
    assert_eq!(load_trust_ders("  \n \t ").unwrap().len(), 0);
    assert_eq!(
        load_trust_ders("not a certificate-----END CERTIFICATE-----").unwrap_err(),
        Error::X509ParsingError
    );
}
