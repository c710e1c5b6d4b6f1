//! Errors of building and reading CAdES signatures.
use vstd::prelude::*;

verus! {

/// Why a signature could not be read or built.
#[derive(Debug, PartialEq, Eq)]
pub enum CadesError {
    /// The octets are not DER of the expected structure.
    Decode,
    /// A content type other than the one expected; the contents octets of its
    /// OBJECT IDENTIFIER.
    UnsupportedContentType(Vec<u8>),
    /// The signature carries no encapsulated content.
    EncapsulatedContentMissing,
    /// The signer failed; what it said of the failure.
    Signer(String),
    /// The system clock gave no instant that a signing time can hold.
    ClockUnavailable,
}

} // verus!
