use vstd::prelude::*;

verus! {

/// What SHA-256 returns for given bytes: a fixed function of the bytes
/// alone, the same in every process and on every machine.
pub uninterp spec fn sha256_of(data: Seq<u8>) -> Seq<u8>;

/// Relies on openssl::hash::hash with MessageDigest::sha256: the digest is
/// a function of the input bytes alone and is 32 bytes long. The hashing
/// call reports failure only on engine or allocation exhaustion; this
/// wrapper treats the digest as total and aborts there rather than return.
#[verifier::external_body]
pub(crate) fn sha256(data: &[u8]) -> (r: Vec<u8>)
    ensures
        r@ == sha256_of(data@),
        r@.len() == 32,
{
    openssl::hash::hash(openssl::hash::MessageDigest::sha256(), data).unwrap().to_vec()
}

/// The upper-case hexadecimal digit for a value below sixteen.
pub open spec fn hex_digit(d: nat) -> char {
    if d < 10 {
        crate::digits::dec_digit(d)
    } else if d == 10 {
        'A'
    } else if d == 11 {
        'B'
    } else if d == 12 {
        'C'
    } else if d == 13 {
        'D'
    } else if d == 14 {
        'E'
    } else {
        'F'
    }
}

/// Upper-case hexadecimal text: two digits per byte, high digit first.
pub open spec fn hex_upper_of(b: Seq<u8>) -> Seq<char>
    decreases b.len(),
{
    if b.len() == 0 {
        Seq::empty()
    } else {
        hex_upper_of(b.drop_last()) + seq![
            hex_digit((b.last() / 16) as nat),
            hex_digit((b.last() % 16) as nat),
        ]
    }
}

/// Hexadecimal text is twice as long as the bytes it renders.
pub proof fn lemma_hex_upper_len(b: Seq<u8>)
    ensures
        hex_upper_of(b).len() == 2 * b.len(),
    decreases b.len(),
{
    if b.len() > 0 {
        lemma_hex_upper_len(b.drop_last());
    }
}

/// Relies on hex::encode_upper: upper-case hexadecimal, two digits per
/// byte, high digit first.
#[verifier::external_body]
pub(crate) fn hex_encode_upper(b: &[u8]) -> (r: String)
    ensures
        r@ == hex_upper_of(b@),
{
    hex::encode_upper(b)
}

/// A certificate's fingerprint: the SHA-256 digest of its encoded bytes,
/// rendered as upper-case hexadecimal.
pub open spec fn fingerprint_of(der: Seq<u8>) -> Seq<char> {
    hex_upper_of(sha256_of(der))
}

/// Computes the fingerprint of a certificate's encoded bytes.
pub fn fingerprint_hex(der: &[u8]) -> (r: String)
    ensures
        r@ == fingerprint_of(der@),
        r@.len() == 64,
{
    let digest = sha256(der);
    let r = hex_encode_upper(digest.as_slice());
    proof {
        lemma_hex_upper_len(digest@);
    }
    r
}

/// Whether an issuer's public key verifies a subject's signature is a
/// function of the two encoded certificates alone. `None` stands for a
/// verification-engine failure, or for bytes no certificate parses from.
pub uninterp spec fn sig_of(subject_der: Seq<u8>, issuer_der: Seq<u8>) -> Option<bool>;

/// Relies on openssl's X509::from_der, X509::public_key and X509::verify:
/// deciding whether `issuer`'s key verifies `subject`'s signature from the
/// two encoded certificates. Any failure along the way comes back as
/// `None`; `Some(b)` is the verification engine's answer.
#[verifier::external_body]
pub(crate) fn check_signature(subject_der: &[u8], issuer_der: &[u8]) -> (r: Option<bool>)
    ensures
        r == sig_of(subject_der@, issuer_der@),
{
    let subject = openssl::x509::X509::from_der(subject_der).ok()?;
    let issuer = openssl::x509::X509::from_der(issuer_der).ok()?;
    let key = issuer.public_key().ok()?;
    subject.verify(&key).ok()
}

/// Whether one certificate's subject stands as the other's issuer — the
/// "issued" relation — is a function of the two encoded certificates alone.
pub uninterp spec fn issued_of(issuer_der: Seq<u8>, subject_der: Seq<u8>) -> bool;

/// Relies on openssl's X509::from_der and X509::issued: whether `issuer`
/// issued `subject`, decided from the two encoded certificates. Bytes no
/// certificate parses from never stand in the relation.
#[verifier::external_body]
pub(crate) fn issued_check(issuer_der: &[u8], subject_der: &[u8]) -> (r: bool)
    ensures
        r == issued_of(issuer_der@, subject_der@),
{
    let parsed = openssl::x509::X509::from_der(issuer_der)
        .and_then(|i| openssl::x509::X509::from_der(subject_der).map(|s| (i, s)));
    match parsed {
        Ok((issuer, subject)) => issuer.issued(&subject) == openssl::x509::X509VerifyResult::OK,
        Err(_) => false,
    }
}

} // verus!
