//! What a signer provides: a certificate, a signature algorithm, signatures,
//! and optionally more attributes.
use vstd::prelude::*;
use crate::cms::{attributes_view, AlgorithmIdentifier, Attribute};
use crate::error::CadesError;

verus! {

/// An error of a signer.
pub trait SignerError {
    /// A description of the error.
    fn describe(&self) -> String;
}

/// A party that signs: implemented by the users of the library, for instance
/// over a PKCS#11 token. What each method answers is described by a predicate
/// that the implementor defines; a signature built by this library is stated
/// over these predicates. An implementor that defines none makes no claim.
pub trait Signer {
    type Error: SignerError;

    /// Whether `cert` is this signer's certificate, DER-encoded.
    open spec fn gives_certificate(&self, cert: Seq<u8>) -> bool {
        true
    }

    /// Whether `signature` is this signer's signature of `data`.
    open spec fn signs(&self, data: Seq<u8>, signature: Seq<u8>) -> bool {
        true
    }

    /// Whether `alg`, a DER AlgorithmIdentifier, is the algorithm of this signer's signatures.
    open spec fn gives_algorithm(&self, alg: Seq<u8>) -> bool {
        true
    }

    /// Whether `attrs` (DER values, `None` for none) are the signed attributes
    /// this signer adds.
    open spec fn gives_signed_attributes(&self, attrs: Option<Seq<Seq<u8>>>) -> bool {
        true
    }

    /// Whether `attrs` (DER values, `None` for none) are the unsigned
    /// attributes this signer attaches.
    open spec fn gives_unsigned_attributes(&self, attrs: Option<Seq<Seq<u8>>>) -> bool {
        true
    }

    /// The signer's X.509 certificate, DER-encoded. Reading it does not change
    /// what the signer gives, signs or adds.
    fn get_certificate(&mut self) -> (r: Result<Vec<u8>, Self::Error>)
        ensures
            r matches Ok(c) ==> old(self).gives_certificate(c@),
            forall|c: Seq<u8>|
                #[trigger] final(self).gives_certificate(c) == old(self).gives_certificate(c),
            forall|d: Seq<u8>, s: Seq<u8>|
                #[trigger] final(self).signs(d, s) == old(self).signs(d, s),
            forall|a: Seq<u8>| #[trigger] final(self).gives_algorithm(a) == old(self).gives_algorithm(a),
            forall|a: Option<Seq<Seq<u8>>>|
                #[trigger] final(self).gives_signed_attributes(a) == old(
                    self,
                ).gives_signed_attributes(a),
            forall|a: Option<Seq<Seq<u8>>>|
                #[trigger] final(self).gives_unsigned_attributes(a) == old(
                    self,
                ).gives_unsigned_attributes(a),
    ;

    /// The signature of `data`.
    fn sign_data(&self, data: &[u8]) -> (r: Result<Vec<u8>, Self::Error>)
        ensures
            r matches Ok(s) ==> self.signs(data@, s@),
    ;

    /// The algorithm of the signatures.
    fn get_signature_algorithm(&self) -> (r: Result<AlgorithmIdentifier, Self::Error>)
        ensures
            r matches Ok(a) ==> self.gives_algorithm(a.der()),
    ;

    /// Signed attributes to add to those that every signature carries, `None` for none.
    fn get_additional_signed_attributes(&self) -> (r: Result<Option<Vec<Attribute>>, Self::Error>)
        ensures
            r matches Ok(a) ==> self.gives_signed_attributes(attributes_view(a)),
    ;

    /// Unsigned attributes to attach to the signature, `None` for none.
    fn get_additional_unsigned_attributes(&self) -> (r: Result<Option<Vec<Attribute>>, Self::Error>)
        ensures
            r matches Ok(a) ==> self.gives_unsigned_attributes(attributes_view(a)),
    ;
}

/// The error that reports a failure of the signer.
pub fn signer_error<E: SignerError>(e: E) -> (r: CadesError)
    ensures
        r is Signer,
{
    CadesError::Signer(e.describe())
}

} // verus!
