//! A CAdES signature under construction: the payload, the signers'
//! certificates and their SignerInfos, finalized into an attached (.p7m) or
//! detached (.p7s) CMS SignedData.
use vstd::prelude::*;
use crate::cms::{
    attributes_der, content_info_der, content_type_attribute, encap_content_info_der,
    encode_attributes, encode_content_info, encode_encap_content_info, encode_signed_data,
    encode_signer_info, int_one_der, signer_info_version_3, message_digest_attribute, oid_der, sha256_algorithm_der,
    signed_attributes, signed_attributes_to_sign, signed_data_der, signer_info_der,
    signing_certificate_v2_attribute, signing_time_attribute, unsigned_attributes_der,
    attributes_view, AlgorithmIdentifier, Attribute,
};
use crate::der::{
    all_elements, bytes_eq, copy_range, length_limit, lemma_parse_tlv, parse_tlv, parse_tlv_in,
    tlv,
};
use crate::error::CadesError;
use crate::oid::{
    id_data, id_data_arcs, id_sha256_arcs, id_signed_data, id_signed_data_arcs, oid_content,
};
use crate::order::{copy_bytes, encode_set_of_content, set_of_content, views};
use crate::read::{
    accepted_attached, all_signer_infos, certificate_issuer_serial, decodes_as_certificate,
    decodes_as_content_info, decodes_as_signed_data, is_certificate_der, parse_certificate,
    parse_signer_info_digest_algorithm, read_signed_data_in, signer_info_digest_algorithm,
    AttachedRead,
};
use crate::signer::{signer_error, Signer};
use crate::time::{clock_instant, current_instant, valid_instant, UtcInstant};

verus! {

/// The contents of a CAdES signature under construction.
pub struct CadesView {
    /// The signed content.
    pub payload: Seq<u8>,
    /// The signers' certificates, each a DER value.
    pub certificates: Seq<Seq<u8>>,
    /// The SignerInfos, each a DER value.
    pub signer_infos: Seq<Seq<u8>>,
}

/// A CAdES signature under construction.
pub struct Cades {
    payload: Vec<u8>,
    certificates: Vec<Vec<u8>>,
    signer_infos: Vec<Vec<u8>>,
}

impl View for Cades {
    type V = CadesView;

    closed spec fn view(&self) -> CadesView {
        CadesView {
            payload: self.payload@,
            certificates: views(self.certificates@),
            signer_infos: views(self.signer_infos@),
        }
    }
}

/// Each certificate is one DER value and each SignerInfo names its digest algorithm.
pub open spec fn cades_wf(v: CadesView) -> bool {
    &&& all_elements(v.certificates)
    &&& all_signer_infos(v.signer_infos)
}

/// `xs` without repeats, each value kept where it first occurs.
pub open spec fn dedup(xs: Seq<Seq<u8>>) -> Seq<Seq<u8>>
    decreases xs.len(),
{
    if xs.len() == 0 {
        Seq::empty()
    } else {
        let d = dedup(xs.drop_last());
        if d.contains(xs.last()) {
            d
        } else {
            d.push(xs.last())
        }
    }
}

/// The digest algorithm of each SignerInfo, in order.
pub open spec fn signer_digest_algorithms(sis: Seq<Seq<u8>>) -> Seq<Seq<u8>> {
    Seq::new(sis.len(), |i: int| signer_info_digest_algorithm(sis[i]).unwrap())
}

/// The digestAlgorithms of a SignedData: the distinct digest algorithms of its SignerInfos.
pub open spec fn digest_algorithms_of(sis: Seq<Seq<u8>>) -> Seq<Seq<u8>> {
    dedup(signer_digest_algorithms(sis))
}

/// The DER SignedData of a finalized signature: the payload inside when
/// `attached`, left out otherwise.
pub open spec fn cades_signed_data(v: CadesView, attached: bool) -> Seq<u8> {
    signed_data_der(
        digest_algorithms_of(v.signer_infos),
        encap_content_info_der(
            if attached {
                Some(v.payload)
            } else {
                None
            },
        ),
        v.certificates,
        v.signer_infos,
    )
}

/// The DER ContentInfo of a finalized signature: the payload inside when
/// `attached`, left out otherwise.
pub open spec fn cades_der(v: CadesView, attached: bool) -> Seq<u8> {
    content_info_der(cades_signed_data(v, attached))
}

enum SignatureType {
    Attached,
    Detached,
}

/// Whether `xs` holds `x`.
pub fn contains_bytes(xs: &Vec<Vec<u8>>, x: &[u8]) -> (r: bool)
    ensures
        r == views(xs@).contains(x@),
{
    let mut i: usize = 0;
    while i < xs.len()
        invariant
            i <= xs.len(),
            forall|k: int| 0 <= k < i ==> views(xs@)[k] != x@,
        decreases xs.len() - i,
    {
        if bytes_eq(xs[i].as_slice(), x) {
            assert(views(xs@)[i as int] == x@);
            return true;
        }
        i = i + 1;
    }
    false
}

/// The distinct digest algorithms of the SignerInfos.
fn digest_algorithms(sis: &Vec<Vec<u8>>) -> (r: Vec<Vec<u8>>)
    requires
        all_signer_infos(views(sis@)),
    ensures
        views(r@) == digest_algorithms_of(views(sis@)),
{
    let ghost all = signer_digest_algorithms(views(sis@));
    let mut out: Vec<Vec<u8>> = Vec::new();
    let mut i: usize = 0;
    while i < sis.len()
        invariant
            i <= sis.len(),
            all == signer_digest_algorithms(views(sis@)),
            all_signer_infos(views(sis@)),
            views(out@) == dedup(all.subrange(0, i as int)),
        decreases sis.len() - i,
    {
        assert(views(sis@)[i as int] == sis@[i as int]@);
        let d = match parse_signer_info_digest_algorithm(sis[i].as_slice()) {
            Some(d) => d,
            None => {
                assert(signer_info_digest_algorithm(views(sis@)[i as int]) is Some);
                return out;
            },
        };
        assert(d@ == all[i as int]);
        let ghost prefix = all.subrange(0, i + 1);
        assert(prefix.drop_last() =~= all.subrange(0, i as int));
        if !contains_bytes(&out, d.as_slice()) {
            let ghost before = views(out@);
            out.push(d);
            assert(views(out@) =~= before.push(prefix.last()));
        }
        i = i + 1;
    }
    assert(all.subrange(0, sis.len() as int) =~= all);
    out
}

impl Cades {
    /// Each certificate is one DER value and each SignerInfo names its digest
    /// algorithm: what every operation keeps.
    #[verifier::type_invariant]
    spec fn wf(&self) -> bool {
        cades_wf(self@)
    }

    /// A signature of `payload` with no signer yet.
    pub fn new(payload: Vec<u8>) -> (r: Cades)
        ensures
            r@ == (CadesView {
                payload: payload@,
                certificates: Seq::empty(),
                signer_infos: Seq::empty(),
            }),
            cades_wf(r@),
    {
        let certificates: Vec<Vec<u8>> = Vec::new();
        let signer_infos: Vec<Vec<u8>> = Vec::new();
        assert(views(certificates@) =~= Seq::<Seq<u8>>::empty());
        assert(views(signer_infos@) =~= Seq::<Seq<u8>>::empty());
        Cades { payload, certificates, signer_infos }
    }

    /// Reads an attached signature (.p7m): its content becomes the payload, and
    /// its certificates and SignerInfos are kept, so that more signers can be
    /// added. As `accepted_attached` says: `Decode` where `rasn` does not decode
    /// the ContentInfo, or the SignedData inside it, or its fields do not read;
    /// `UnsupportedContentType` for a content type other than id-signedData,
    /// then for an encapsulated content type other than id-data;
    /// `EncapsulatedContentMissing` where the content is left out.
    pub fn from_attached_signature(bytes: &[u8]) -> (r: Result<Cades, CadesError>)
        ensures
            match accepted_attached(
                bytes@,
                oid_content(id_signed_data_arcs()),
                oid_content(id_data_arcs()),
            ) {
                AttachedRead::Parts(p, certs, sis) => r matches Ok(c) && c@ == (CadesView {
                    payload: p,
                    certificates: certs,
                    signer_infos: sis,
                }) && cades_wf(c@),
                AttachedRead::Malformed => r matches Err(CadesError::Decode),
                AttachedRead::UnsupportedContentType(o) => r matches Err(
                    CadesError::UnsupportedContentType(v),
                ) && v@ == o,
                AttachedRead::ContentMissing => r matches Err(
                    CadesError::EncapsulatedContentMissing,
                ),
            },
    {
        if !decodes_as_content_info(bytes) {
            return Err(CadesError::Decode);
        }
        let n = bytes.len();
        assert(bytes@.subrange(0, n as int) =~= bytes@);
        let (t0, cs, ce) = match parse_tlv_in(bytes, 0, n) {
            Some(x) => x,
            None => return Err(CadesError::Decode),
        };
        if t0 != 0x30 || ce != n {
            return Err(CadesError::Decode);
        }
        let (to, os, oe) = match parse_tlv_in(bytes, cs, ce) {
            Some(x) => x,
            None => return Err(CadesError::Decode),
        };
        if to != 0x06 {
            return Err(CadesError::Decode);
        }
        let (tx, is, ie) = match parse_tlv_in(bytes, oe, ce) {
            Some(x) => x,
            None => return Err(CadesError::Decode),
        };
        if tx != 0xA0 || ie != ce {
            return Err(CadesError::Decode);
        }
        match parse_tlv_in(bytes, is, ie) {
            Some(_) => {},
            None => return Err(CadesError::Decode),
        }
        let content_type = copy_range(bytes, os, oe);
        let signed_data_oid = id_signed_data();
        if !bytes_eq(content_type.as_slice(), signed_data_oid.as_bytes()) {
            return Err(CadesError::UnsupportedContentType(content_type));
        }
        let inner = copy_range(bytes, is, ie);
        if !decodes_as_signed_data(inner.as_slice()) {
            return Err(CadesError::Decode);
        }
        let (ect, econtent, certificates, signer_infos) = match read_signed_data_in(bytes, is, ie) {
            Some(x) => x,
            None => return Err(CadesError::Decode),
        };
        let data_oid = id_data();
        if !bytes_eq(ect.as_slice(), data_oid.as_bytes()) {
            return Err(CadesError::UnsupportedContentType(ect));
        }
        let payload = match econtent {
            Some(p) => p,
            None => return Err(CadesError::EncapsulatedContentMissing),
        };
        proof {
            lemma_read_signed_data_wf(bytes@.subrange(is as int, ie as int));
        }
        Ok(Cades { payload, certificates, signer_infos })
    }

    /// The payload.
    pub fn get_payload(&self) -> (r: &[u8])
        ensures
            r@ == self@.payload,
    {
        self.payload.as_slice()
    }

    /// The signers' certificates.
    pub fn certificates(&self) -> (r: &Vec<Vec<u8>>)
        ensures
            views(r@) == self@.certificates,
            cades_wf(self@),
    {
        proof {
            use_type_invariant(self);
        }
        &self.certificates
    }

    /// The SignerInfos.
    pub fn signer_infos(&self) -> (r: &Vec<Vec<u8>>)
        ensures
            views(r@) == self@.signer_infos,
            cades_wf(self@),
    {
        proof {
            use_type_invariant(self);
        }
        &self.signer_infos
    }

    /// The attached signature (.p7m): a DER ContentInfo whose SignedData carries the payload.
    pub fn finalize_attached(self) -> (r: Result<Vec<u8>, CadesError>)
        ensures
            r matches Ok(b) && b@ == cades_der(self@, true),
    {
        self.finalize(SignatureType::Attached)
    }

    /// The detached signature (.p7s): a DER ContentInfo whose SignedData leaves the payload out.
    pub fn finalize_detached(self) -> (r: Result<Vec<u8>, CadesError>)
        ensures
            r matches Ok(b) && b@ == cades_der(self@, false),
    {
        self.finalize(SignatureType::Detached)
    }

    /// The signed attributes of a signer with the certificate `certificate`,
    /// at the instant `time`: those it adds, then content type (id-data),
    /// signing time, message digest of the payload and signing certificate.
    /// Fails with `Decode` where the certificate does not name its issuer and
    /// serial number.
    #[verifier::spinoff_prover]
    #[verifier::rlimit(50)]
    pub fn signed_attributes(
        &self,
        certificate: &[u8],
        additional: &Option<Vec<Attribute>>,
        time: &UtcInstant,
    ) -> (r: Result<Vec<Vec<u8>>, CadesError>)
        requires
            valid_instant(*time),
        ensures
            match certificate_issuer_serial(certificate@) {
                Some((issuer, serial)) => r matches Ok(a) && views(a@) == signed_attributes(
                    optional_attributes_der(*additional),
                    *time,
                    self@.payload,
                    certificate@,
                    issuer,
                    serial,
                ),
                None => r matches Err(CadesError::Decode),
            },
    {
        let (issuer, serial) = match parse_certificate(certificate) {
            Some(x) => x,
            None => return Err(CadesError::Decode),
        };
        let mut attrs: Vec<Vec<u8>> = match additional {
            Some(v) => encode_attributes(v),
            None => Vec::new(),
        };
        let ghost add = views(attrs@);
        assert(add == optional_attributes_der(*additional));
        let a1 = content_type_attribute();
        let a2 = signing_time_attribute(time);
        let a3 = message_digest_attribute(self.payload.as_slice());
        let a4 = signing_certificate_v2_attribute(certificate, issuer.as_slice(), serial.as_slice());
        let ghost tail = seq![a1@, a2@, a3@, a4@];
        attrs.push(a1);
        attrs.push(a2);
        attrs.push(a3);
        attrs.push(a4);
        proof {
            assert(views(attrs@) =~= add + tail);
        }
        Ok(attrs)
    }

    /// The octets that a signer signs: the signed attributes as a DER SET OF.
    pub fn encode_signed_attributes(attrs: &Vec<Vec<u8>>) -> (r: Vec<u8>)
        ensures
            r@ == signed_attributes_to_sign(views(attrs@)),
    {
        let content = encode_set_of_content(crate::cms::copy_all(attrs));
        crate::der::encode_tlv(0x31, content.as_slice())
    }

    /// Adds the SignerInfo of a signer with the certificate `certificate`:
    /// version 1, its issuer and serial number, SHA-256, the signed attributes,
    /// the signature algorithm, the signature and the unsigned attributes.
    /// Fails with `Decode`, and changes nothing, where the certificate does not
    /// name its issuer and serial number.
    #[verifier::spinoff_prover]
    #[verifier::rlimit(50)]
    pub fn add_signer_info(
        &mut self,
        certificate: &[u8],
        signature_algorithm: &AlgorithmIdentifier,
        signed_attrs: Vec<Vec<u8>>,
        signature: &[u8],
        unsigned: &Option<Vec<Attribute>>,
    ) -> (r: Result<(), CadesError>)
        ensures
            final(self)@.payload == old(self)@.payload,
            final(self)@.certificates == old(self)@.certificates,
            match certificate_issuer_serial(certificate@) {
                Some((issuer, serial)) => r is Ok && final(self)@.signer_infos == old(self)@.signer_infos.push(
                    signer_info_der(
                        issuer,
                        serial,
                        views(signed_attrs@),
                        signature_algorithm.der(),
                        signature@,
                        attributes_view(*unsigned),
                    ),
                ),
                None => r matches Err(CadesError::Decode) && final(self)@ == old(self)@,
            },
    {
        let (issuer, serial) = match parse_certificate(certificate) {
            Some(x) => x,
            None => return Err(CadesError::Decode),
        };
        let alg = signature_algorithm.encode();
        let unsigned_encoded = match unsigned {
            Some(v) => Some(encode_attributes(v)),
            None => None,
        };
        assert(match unsigned_encoded {
            Some(u) => Some(views(u@)),
            None => None,
        } == attributes_view(*unsigned));
        let si = encode_signer_info(
            issuer.as_slice(),
            serial.as_slice(),
            signed_attrs,
            alg.as_slice(),
            signature,
            unsigned_encoded,
        );
        proof {
            assert(si@.len() == si.len());
            lemma_signer_info_digest_algorithm(
                issuer@,
                serial@,
                views(signed_attrs@),
                alg@,
                signature@,
                attributes_view(*unsigned),
            );
        }
        proof {
            use_type_invariant(&*self);
        }
        let mut sis: Vec<Vec<u8>> = Vec::new();
        assert(views(sis@) =~= Seq::<Seq<u8>>::empty());
        std::mem::swap(&mut sis, &mut self.signer_infos);
        let ghost before = views(sis@);
        sis.push(si);
        assert(views(sis@) =~= before.push(si@));
        assert(all_signer_infos(views(sis@))) by {
            assert forall|i: int| 0 <= i < views(sis@).len() implies (
            #[trigger] signer_info_digest_algorithm(views(sis@)[i])) is Some by {
                if i < before.len() {
                    assert(views(sis@)[i] == before[i]);
                }
            }
        }
        self.signer_infos = sis;
        Ok(())
    }

    /// Adds a certificate, one DER value, to those of the signature.
    fn push_certificate(&mut self, cert: Vec<u8>)
        requires
            crate::der::is_element(cert@),
        ensures
            final(self)@.payload == old(self)@.payload,
            final(self)@.signer_infos == old(self)@.signer_infos,
            final(self)@.certificates == old(self)@.certificates.push(cert@),
    {
        proof {
            use_type_invariant(&*self);
        }
        let mut certs: Vec<Vec<u8>> = Vec::new();
        assert(views(certs@) =~= Seq::<Seq<u8>>::empty());
        std::mem::swap(&mut certs, &mut self.certificates);
        let ghost before = views(certs@);
        certs.push(cert);
        assert(views(certs@) =~= before.push(cert@));
        assert(all_elements(views(certs@))) by {
            assert forall|i: int| 0 <= i < views(certs@).len() implies crate::der::is_element(
            #[trigger] views(certs@)[i]) by {
                if i < before.len() {
                    assert(views(certs@)[i] == before[i]);
                }
            }
        }
        self.certificates = certs;
    }

    /// Adds a signer. It is asked for its certificate, which joins the
    /// certificates; then for its signature algorithm and additional signed
    /// attributes; the clock for the signing time; the signer again for its
    /// certificate, which the signing-certificate attribute names; and once more,
    /// for the certificate whose issuer and serial number identify the signer.
    /// It then signs the DER of the signed attributes and is asked for its
    /// unsigned attributes. On success everything in the SignerInfo is what the
    /// signer and the clock answered (`signed_by`). Fails with `Signer` where a
    /// call of the signer fails, with `Decode` where a certificate it gives is
    /// not usable, and with `ClockUnavailable` where the clock gives no instant;
    /// the first certificate is kept once it has been read.
    #[verifier::spinoff_prover]
    #[verifier::rlimit(80)]
    pub fn sign<S: Signer>(&mut self, signer: S) -> (r: Result<(), CadesError>)
        ensures
            final(self)@.payload == old(self)@.payload,
            r is Ok ==> exists|
                cert: Seq<u8>,
                attr_cert: Seq<u8>,
                sid_cert: Seq<u8>,
                alg: Seq<u8>,
                additional: Option<Seq<Seq<u8>>>,
                t: UtcInstant,
                signature: Seq<u8>,
                unsigned: Option<Seq<Seq<u8>>>,
            |
                #[trigger] signed_by(
                    signer,
                    old(self)@,
                    final(self)@,
                    cert,
                    attr_cert,
                    sid_cert,
                    alg,
                    additional,
                    t,
                    signature,
                    unsigned,
                ),
            r matches Err(e) ==> e is Signer || e is Decode || e is ClockUnavailable,
            r is Err ==> final(self)@.signer_infos == old(self)@.signer_infos,
            r is Err ==> final(self)@.certificates == old(self)@.certificates || exists|cert: Seq<u8>|
                signer.gives_certificate(cert) && certificate_usable(cert)
                    && final(self)@.certificates == #[trigger] old(self)@.certificates.push(cert),
            r matches Err(CadesError::Decode) ==> exists|cert: Seq<u8>|
                #[trigger] signer.gives_certificate(cert) && !certificate_usable(cert),
    {
        let ghost original = signer;
        let mut signer = signer;
        let ghost start = self@;
        let certificate = match signer.get_certificate() {
            Ok(c) => c,
            Err(e) => return Err(signer_error(e)),
        };
        if !decodes_as_certificate(certificate.as_slice()) {
            return Err(CadesError::Decode);
        }
        match parse_certificate(certificate.as_slice()) {
            Some(_) => {},
            None => return Err(CadesError::Decode),
        }
        self.push_certificate(copy_bytes(certificate.as_slice()));
        let algorithm = match signer.get_signature_algorithm() {
            Ok(a) => a,
            Err(e) => return Err(signer_error(e)),
        };
        let additional = match signer.get_additional_signed_attributes() {
            Ok(a) => a,
            Err(e) => return Err(signer_error(e)),
        };
        let time = match current_instant() {
            Some(t) => t,
            None => return Err(CadesError::ClockUnavailable),
        };
        let attr_cert = match signer.get_certificate() {
            Ok(c) => c,
            Err(e) => return Err(signer_error(e)),
        };
        assert(original.gives_certificate(attr_cert@));
        if !decodes_as_certificate(attr_cert.as_slice()) {
            return Err(CadesError::Decode);
        }
        let attrs = match self.signed_attributes(attr_cert.as_slice(), &additional, &time) {
            Ok(a) => a,
            Err(e) => return Err(e),
        };
        let sid_cert = match signer.get_certificate() {
            Ok(c) => c,
            Err(e) => return Err(signer_error(e)),
        };
        assert(original.gives_certificate(sid_cert@));
        if !decodes_as_certificate(sid_cert.as_slice()) {
            return Err(CadesError::Decode);
        }
        match parse_certificate(sid_cert.as_slice()) {
            Some(_) => {},
            None => return Err(CadesError::Decode),
        }
        let to_sign = Cades::encode_signed_attributes(&attrs);
        let signature = match signer.sign_data(to_sign.as_slice()) {
            Ok(s) => s,
            Err(e) => return Err(signer_error(e)),
        };
        let unsigned = match signer.get_additional_unsigned_attributes() {
            Ok(u) => u,
            Err(e) => return Err(signer_error(e)),
        };
        let res = self.add_signer_info(
            sid_cert.as_slice(),
            &algorithm,
            attrs,
            signature.as_slice(),
            &unsigned,
        );
        proof {
            assert(signed_by(
                original,
                start,
                self@,
                certificate@,
                attr_cert@,
                sid_cert@,
                algorithm.der(),
                attributes_view(additional),
                time,
                signature@,
                attributes_view(unsigned),
            ));
        }
        res
    }

    fn finalize(self, signature_type: SignatureType) -> (r: Result<Vec<u8>, CadesError>)
        ensures
            r matches Ok(b) && b@ == cades_der(self@, signature_type is Attached),
    {
        proof {
            use_type_invariant(&self);
        }
        let digests = digest_algorithms(&self.signer_infos);
        let encap = match signature_type {
            SignatureType::Attached => encode_encap_content_info(Some(self.payload.as_slice())),
            SignatureType::Detached => encode_encap_content_info(None),
        };
        let signed_data = encode_signed_data(
            digests,
            encap.as_slice(),
            self.certificates,
            self.signer_infos,
        );
        Ok(encode_content_info(signed_data.as_slice()))
    }
}

/// The DER encodings of the attributes a signer may add, none where it adds none.
pub open spec fn optional_attributes_der(a: Option<Vec<Attribute>>) -> Seq<Seq<u8>> {
    attributes_or_none(attributes_view(a))
}

/// The attributes `a`, or none.
pub open spec fn attributes_or_none(a: Option<Seq<Seq<u8>>>) -> Seq<Seq<u8>> {
    match a {
        Some(v) => v,
        None => Seq::empty(),
    }
}

/// Whether `cert` is a certificate that a signer can be added with: `rasn`
/// decodes it as a Certificate, and it names its issuer and serial number.
pub open spec fn certificate_usable(cert: Seq<u8>) -> bool {
    is_certificate_der(cert) && certificate_issuer_serial(cert) is Some
}

/// `after` is `before` with one more signer: the certificate `cert` joins
/// the certificates, and the SignerInfo made of the issuer and serial number
/// of `sid_cert`, the signed attributes (those the signer added, then content
/// type, signing time `t`, message digest of the payload, signing certificate
/// of `attr_cert`), the signature algorithm `alg`, the signature and the
/// unsigned attributes joins the SignerInfos.
pub open spec fn signer_added(
    before: CadesView,
    after: CadesView,
    cert: Seq<u8>,
    attr_cert: Seq<u8>,
    sid_cert: Seq<u8>,
    alg: Seq<u8>,
    additional: Seq<Seq<u8>>,
    t: UtcInstant,
    signature: Seq<u8>,
    unsigned: Option<Seq<Seq<u8>>>,
) -> bool {
    &&& valid_instant(t)
    &&& signed_attributes_of(before.payload, attr_cert, additional, t) matches Some(attrs)
    &&& certificate_issuer_serial(sid_cert) matches Some((issuer, serial))
    &&& after.payload == before.payload
    &&& after.certificates == before.certificates.push(cert)
    &&& after.signer_infos == before.signer_infos.push(
        signer_info_der(issuer, serial, attrs, alg, signature, unsigned),
    )
}

/// The signed attributes of a signer whose signing-certificate attribute
/// names `cert`, with the additional attributes `additional`, at the instant
/// `t`, over the payload `payload`: those added, then content type, signing
/// time, message digest and signing certificate; `None` where the certificate
/// does not name its issuer and serial.
pub open spec fn signed_attributes_of(
    payload: Seq<u8>,
    cert: Seq<u8>,
    additional: Seq<Seq<u8>>,
    t: UtcInstant,
) -> Option<Seq<Seq<u8>>> {
    match certificate_issuer_serial(cert) {
        Some((issuer, serial)) => Some(
            signed_attributes(additional, t, payload, cert, issuer, serial),
        ),
        None => None,
    }
}

/// `after` is `before` with one more signer as `signer_added` says, where the
/// three certificates, the signature algorithm and the attributes are the
/// answers of `signer`, the signing time an instant of the clock, and the
/// signature the signer's signature of the DER SET OF the signed attributes.
pub open spec fn signed_by<S: Signer>(
    signer: S,
    before: CadesView,
    after: CadesView,
    cert: Seq<u8>,
    attr_cert: Seq<u8>,
    sid_cert: Seq<u8>,
    alg: Seq<u8>,
    additional: Option<Seq<Seq<u8>>>,
    t: UtcInstant,
    signature: Seq<u8>,
    unsigned: Option<Seq<Seq<u8>>>,
) -> bool {
    &&& signer_added(
        before,
        after,
        cert,
        attr_cert,
        sid_cert,
        alg,
        attributes_or_none(additional),
        t,
        signature,
        unsigned,
    )
    &&& certificate_usable(cert) && certificate_usable(attr_cert) && certificate_usable(sid_cert)
    &&& clock_instant(t)
    &&& signer.gives_certificate(cert)
    &&& signer.gives_certificate(attr_cert)
    &&& signer.gives_certificate(sid_cert)
    &&& signer.gives_algorithm(alg)
    &&& signer.gives_signed_attributes(additional)
    &&& signer.gives_unsigned_attributes(unsigned)
    &&& signed_attributes_of(before.payload, attr_cert, attributes_or_none(additional), t) matches Some(attrs)
    &&& signer.signs(signed_attributes_to_sign(attrs), signature)
}

/// The digestAlgorithm that a SignerInfo written here names is SHA-256, and
/// its version is 1, not 3.
#[verifier::spinoff_prover]
#[verifier::rlimit(40)]
pub proof fn lemma_signer_info_digest_algorithm(
    issuer: Seq<u8>,
    serial: Seq<u8>,
    attrs: Seq<Seq<u8>>,
    alg: Seq<u8>,
    signature: Seq<u8>,
    unsigned: Option<Seq<Seq<u8>>>,
)
    requires
        signer_info_der(issuer, serial, attrs, alg, signature, unsigned).len() < length_limit(),
    ensures
        signer_info_digest_algorithm(signer_info_der(issuer, serial, attrs, alg, signature, unsigned))
            == Some(sha256_algorithm_der()),
        !signer_info_version_3(signer_info_der(issuer, serial, attrs, alg, signature, unsigned)),
{
    let sid = tlv(0x30, issuer + serial);
    let sha = sha256_algorithm_der();
    let rest = tlv(0xA0, set_of_content(attrs)) + alg + tlv(0x04, signature)
        + unsigned_attributes_der(unsigned);
    let content = int_one_der() + sid + sha + rest;
    let si = signer_info_der(issuer, serial, attrs, alg, signature, unsigned);
    assert(si =~= tlv(0x30, content));
    lemma_parse_tlv(0x30, content, Seq::empty());
    assert(tlv(0x30, content) + Seq::<u8>::empty() =~= tlv(0x30, content));
    assert(content =~= int_one_der() + (sid + (sha + rest)));
    lemma_parse_tlv(0x02, seq![1u8], sid + (sha + rest));
    lemma_parse_tlv(0x30, issuer + serial, sha + rest);
    lemma_parse_tlv(0x30, oid_der(oid_content(id_sha256_arcs())), rest);
}

/// The certificates and SignerInfos that a SignedData yields keep a signature well formed.
proof fn lemma_read_signed_data_wf(inner: Seq<u8>)
    requires
        crate::read::read_signed_data(inner) is Some,
    ensures
        ({
            let (_, _, certs, sis) = crate::read::read_signed_data(inner).unwrap();
            all_elements(certs) && all_signer_infos(sis)
        }),
{
    let (_, sd, _) = parse_tlv(inner).unwrap();
    let (_, _, a) = parse_tlv(sd).unwrap();
    let (_, _, b) = parse_tlv(a).unwrap();
    let (_, _, c) = parse_tlv(b).unwrap();
    match parse_tlv(c) {
        Some((t, cc, d)) => {
            if t == 0xA0 {
                crate::der::lemma_parse_elements_sound(cc);
            }
        },
        None => {},
    }
}

} // verus!
