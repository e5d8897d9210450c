use hammurabi::digits::u64_to_dec;
use hammurabi::errors::Error;
use hammurabi::errors::error_string;
use hammurabi::errors::verify_chain;
use hammurabi::facts::Fact;
use hammurabi::facts::render_document;
use hammurabi::rows::form_chain;
use hammurabi::rows::intermediate_path;
use hammurabi::rows::job_dir_name;
use hammurabi::rows::row_result_line;
use hammurabi::rows::row_skip_line;

#[test]
fn status_table_maps_each_listed_status() {
    assert_eq!(verify_chain(0), Ok(()));
    assert_eq!(verify_chain(10), Err(Error::CertNotTimeValid));
    assert_eq!(verify_chain(20), Err(Error::NameConstraintViolation));
    assert_eq!(verify_chain(30), Err(Error::CertNotValidForName));
    assert_eq!(verify_chain(40), Err(Error::CertRevoked));
    assert_eq!(verify_chain(50), Err(Error::PathLenConstraintViolated));
    assert_eq!(verify_chain(60), Err(Error::UnknownIssuer));
    assert_eq!(verify_chain(70), Err(Error::ACCFailure));
    assert_eq!(verify_chain(80), Err(Error::LeafValidForTooLong));
}

#[test]
fn status_table_is_injective_on_listed_statuses() {
    let listed = [0, 10, 20, 30, 40, 50, 60, 70, 80];
    for a in listed {
        for b in listed {
            if a != b {
                assert_ne!(verify_chain(a), verify_chain(b));
            }
        }
    }
}

#[test]
fn unlisted_statuses_are_unclassified() {
    for s in [-1, 1, 5, 11, 25, 79, 81, 100, 255] {
        assert_eq!(verify_chain(s), Err(Error::UnknownError));
    }
}

#[test]
fn error_strings_match_variant_names() {
    assert_eq!(error_string(&Error::X509ParsingError), "X509ParsingError");
    assert_eq!(error_string(&Error::OpenSSLInvalid), "OpenSSLInvalid");
    assert_eq!(error_string(&Error::OpenSSLFailed), "OpenSSLFailed");
    assert_eq!(error_string(&Error::UnknownError), "UnknownError");
    assert_eq!(format!("{:?}", Error::OpenSSLInvalid), "OpenSSLInvalid");
}

#[test]
fn fingerprint_of_empty_bytes_is_the_sha256_test_vector() {
    assert_eq!(
        hammurabi::encode::fingerprint_hex(&[]),
        "E3B0C44298FC1C149AFBF4C8996FB92427AE41E4649B934CA495991B7852B855"
    );
}

#[test]
fn decimal_rendering() {
    assert_eq!(u64_to_dec(0), "0");
    assert_eq!(u64_to_dec(7), "7");
    assert_eq!(u64_to_dec(10), "10");
    assert_eq!(u64_to_dec(1234567890), "1234567890");
    assert_eq!(u64_to_dec(u64::MAX), "18446744073709551615");
}

#[test]
fn ip_literal_rows_are_skipped() {
    let line = row_skip_line("AB12", "192.0.2.1");
    assert_eq!(line, Some("AB12,192.0.2.1,SKIPPED\n".to_string()));
    assert!(row_skip_line("AB12", "::1").is_some());
    assert!(row_skip_line("AB12", "2001:db8::7").is_some());
    assert_eq!(row_skip_line("AB12", "example.com"), None);
    assert_eq!(row_skip_line("AB12", "www.example.org"), None);
}

#[test]
fn result_lines_lowercase_the_domain() {
    assert_eq!(row_result_line("AB12", "Example.COM", &Ok(())), "AB12,example.com,OK\n");
    assert_eq!(
        row_result_line("AB12", "example.com", &Err(Error::OpenSSLInvalid)),
        "AB12,example.com,OpenSSLInvalid\n"
    );
    assert_eq!(
        row_result_line("CD34", "EXAMPLE.com", &Err(Error::UnknownIssuer)),
        "CD34,example.com,UnknownIssuer\n"
    );
}

#[test]
fn job_directories_are_distinct_per_partition_and_worker() {
    assert_eq!(job_dir_name("chrome", "", 3, 7), "prolog/job/chrome-3-7");
    assert_eq!(job_dir_name("firefox", "9", 0, 1), "prolog/job9/firefox-0-1");
    let mut seen = Vec::new();
    for p in 0..4u64 {
        for w in 0..4u64 {
            let d = job_dir_name("chrome", "", p, w);
            assert!(!seen.contains(&d));
            seen.push(d);
        }
    }
}

#[test]
fn render_document_lays_facts_out_in_order() {
    let facts = vec![
        Fact::Fingerprint { id: 0, hex: "AB".to_string() },
        Fact::Attributes { block: "commonName(cert_0, \"x\").\n".to_string(), padded: true },
        Fact::Fingerprint { id: 1, hex: "CD".to_string() },
        Fact::Attributes { block: "commonName(cert_1, \"y\").\n".to_string(), padded: false },
        Fact::IssuerLink { subject: 0, issuer: 1 },
        Fact::Revocation { block: "ocspResponse(cert_0, []).\n".to_string() },
    ];
    let doc = render_document(&facts);
    let body = "fingerprint(cert_0, \"AB\").\ncommonName(cert_0, \"x\").\n\n\nfingerprint(cert_1, \"CD\").\ncommonName(cert_1, \"y\").\nissuer(cert_0, cert_1).\n\nocspResponse(cert_0, []).\n";
    assert!(doc.ends_with(body));
    assert!(doc.starts_with("\n:- module(certs, ["));
    assert!(doc.contains("fingerprint/2,"));
    assert!(doc.contains("stapledResponse/2\n]).\n:-style_check(-discontiguous).\n\n"));
    assert_eq!(doc.len(), doc.find(body).unwrap() + body.len());
}

#[test]
fn forming_a_chain_concatenates_leaf_then_intermediates() {
    let ints = vec!["B".to_string(), "C".to_string()];
    assert_eq!(form_chain("A", &ints), "ABC");
    assert_eq!(form_chain("A", &Vec::new()), "A");
    assert_eq!(intermediate_path("/ints", "abc"), "/ints/abc.pem");
}
