//! One-shot signing of a content with one signer.
use vstd::prelude::*;
use crate::cades::{cades_der, signed_by, Cades, CadesView};
use crate::cms::{encap_content_info_der, encode_encap_content_info};
use crate::error::CadesError;
use crate::order::copy_bytes;
use crate::signer::Signer;
use crate::time::UtcInstant;

verus! {

/// What to sign, and whether the signature leaves it out (detached, .p7s) or
/// carries it (attached, .p7m).
pub struct EncapContent {
    pub detach: bool,
    pub data: Vec<u8>,
}

/// The EncapsulatedContentInfo of `encap_content`: id-data, with the content
/// unless the signature is detached.
pub fn build_encap_content_info(encap_content: &EncapContent) -> (r: Vec<u8>)
    ensures
        r@ == encap_content_info_der(
            if encap_content.detach {
                None
            } else {
                Some(encap_content.data@)
            },
        ),
{
    if encap_content.detach {
        encode_encap_content_info(None)
    } else {
        encode_encap_content_info(Some(encap_content.data.as_slice()))
    }
}

/// The signature of `encap_content` by `signer`: a DER ContentInfo whose
/// SignedData holds the signer's certificate and SignerInfo (as `signed_by`
/// says), and the content unless the signature is detached. Fails where
/// `Cades::sign` fails.
pub fn build_content_info<S: Signer>(encap_content: &EncapContent, signer: S) -> (r: Result<
    Vec<u8>,
    CadesError,
>)
    ensures
        r matches Ok(b) ==> exists|
            v: CadesView,
            cert: Seq<u8>,
            attr_cert: Seq<u8>,
            sid_cert: Seq<u8>,
            alg: Seq<u8>,
            additional: Option<Seq<Seq<u8>>>,
            t: UtcInstant,
            signature: Seq<u8>,
            unsigned: Option<Seq<Seq<u8>>>,
        |
            #[trigger] signed_by(
                signer,
                CadesView {
                    payload: encap_content.data@,
                    certificates: Seq::empty(),
                    signer_infos: Seq::empty(),
                },
                v,
                cert,
                attr_cert,
                sid_cert,
                alg,
                additional,
                t,
                signature,
                unsigned,
            ) && b@ == cades_der(v, !encap_content.detach),
        r matches Err(e) ==> e is Signer || e is Decode || e is ClockUnavailable,
{
    let mut cades = Cades::new(copy_bytes(encap_content.data.as_slice()));
    match cades.sign(signer) {
        Ok(()) => {},
        Err(e) => return Err(e),
    }
    let r = if encap_content.detach {
        cades.finalize_detached()
    } else {
        cades.finalize_attached()
    };
    r
}

} // verus!
