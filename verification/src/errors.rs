use vstd::prelude::*;

verus! {

/// Every way a single row's evaluation can end short of acceptance: a
/// certificate the encoder cannot decode, a broken signature link, a
/// verification-engine failure, one of the eight policy verdicts the
/// evaluator reports through its exit status, or an unclassified failure.
#[derive(Clone, Copy, Debug, PartialEq, Eq, Structural)]
pub enum Error {
    X509ParsingError,
    OpenSSLInvalid,
    OpenSSLFailed,
    CertNotTimeValid,
    NameConstraintViolation,
    CertNotValidForName,
    CertRevoked,
    PathLenConstraintViolated,
    UnknownIssuer,
    ACCFailure,
    LeafValidForTooLong,
    UnknownError,
}

/// The evaluator's exit-status table: 0 is acceptance, the eight listed
/// non-zero statuses are its named policy verdicts, and every other status
/// is an unclassified failure.
pub open spec fn spec_classify_status(status: i32) -> Result<(), Error> {
    if status == 0 {
        Ok(())
    } else if status == 10 {
        Err(Error::CertNotTimeValid)
    } else if status == 20 {
        Err(Error::NameConstraintViolation)
    } else if status == 30 {
        Err(Error::CertNotValidForName)
    } else if status == 40 {
        Err(Error::CertRevoked)
    } else if status == 50 {
        Err(Error::PathLenConstraintViolated)
    } else if status == 60 {
        Err(Error::UnknownIssuer)
    } else if status == 70 {
        Err(Error::ACCFailure)
    } else if status == 80 {
        Err(Error::LeafValidForTooLong)
    } else {
        Err(Error::UnknownError)
    }
}

pub open spec fn is_listed_status(status: i32) -> bool {
    status == 0 || status == 10 || status == 20 || status == 30 || status == 40
        || status == 50 || status == 60 || status == 70 || status == 80
}

/// Classifies the evaluator's exit status. A non-zero status is the
/// evaluator's structured verdict on the chain, not a process failure.
pub fn verify_chain(status: i32) -> (r: Result<(), Error>)
    ensures
        r == spec_classify_status(status),
{
    match status {
        0 => Ok(()),
        10 => Err(Error::CertNotTimeValid),
        20 => Err(Error::NameConstraintViolation),
        30 => Err(Error::CertNotValidForName),
        40 => Err(Error::CertRevoked),
        50 => Err(Error::PathLenConstraintViolated),
        60 => Err(Error::UnknownIssuer),
        70 => Err(Error::ACCFailure),
        80 => Err(Error::LeafValidForTooLong),
        _ => Err(Error::UnknownError),
    }
}

/// The nine listed exit statuses map one-to-one onto acceptance and the
/// eight named policy violations: no two of them classify alike.
pub proof fn lemma_status_classification_injective(s1: i32, s2: i32)
    requires
        is_listed_status(s1),
        is_listed_status(s2),
        spec_classify_status(s1) == spec_classify_status(s2),
    ensures
        s1 == s2,
{
}

/// Every status outside the listed table is an unclassified failure, and no
/// listed status classifies as one: the fallback is reserved for strangers.
pub proof fn lemma_unlisted_status_unclassified(status: i32)
    ensures
        !is_listed_status(status) <==> spec_classify_status(status) == Err::<(), Error>(
            Error::UnknownError,
        ),
{
}

/// The textual form of each error, as a row outcome records it.
pub open spec fn spec_error_text(e: Error) -> Seq<char> {
    match e {
        Error::X509ParsingError => "X509ParsingError"@,
        Error::OpenSSLInvalid => "OpenSSLInvalid"@,
        Error::OpenSSLFailed => "OpenSSLFailed"@,
        Error::CertNotTimeValid => "CertNotTimeValid"@,
        Error::NameConstraintViolation => "NameConstraintViolation"@,
        Error::CertNotValidForName => "CertNotValidForName"@,
        Error::CertRevoked => "CertRevoked"@,
        Error::PathLenConstraintViolated => "PathLenConstraintViolated"@,
        Error::UnknownIssuer => "UnknownIssuer"@,
        Error::ACCFailure => "ACCFailure"@,
        Error::LeafValidForTooLong => "LeafValidForTooLong"@,
        Error::UnknownError => "UnknownError"@,
    }
}

/// The name of the error, for recording a failed row's outcome.
pub fn error_string(e: &Error) -> (r: String)
    ensures
        r@ == spec_error_text(*e),
{
    match e {
        Error::X509ParsingError => String::from_str("X509ParsingError"),
        Error::OpenSSLInvalid => String::from_str("OpenSSLInvalid"),
        Error::OpenSSLFailed => String::from_str("OpenSSLFailed"),
        Error::CertNotTimeValid => String::from_str("CertNotTimeValid"),
        Error::NameConstraintViolation => String::from_str("NameConstraintViolation"),
        Error::CertNotValidForName => String::from_str("CertNotValidForName"),
        Error::CertRevoked => String::from_str("CertRevoked"),
        Error::PathLenConstraintViolated => String::from_str("PathLenConstraintViolated"),
        Error::UnknownIssuer => String::from_str("UnknownIssuer"),
        Error::ACCFailure => String::from_str("ACCFailure"),
        Error::LeafValidForTooLong => String::from_str("LeafValidForTooLong"),
        Error::UnknownError => String::from_str("UnknownError"),
    }
}

} // verus!
