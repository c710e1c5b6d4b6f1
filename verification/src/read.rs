//! Reading DER: the issuer and serial number of a certificate, the digest
//! algorithm of a SignerInfo, and the parts of an attached CAdES signature.
use vstd::prelude::*;
use crate::der::{
    copy_range, encode_tlv, parse_elements, parse_elements_in, parse_tlv,
    parse_tlv_in, tlv,
};
use crate::order::views;

verus! {

/// The tbsCertificate contents of Certificate ::= SEQUENCE { tbsCertificate SEQUENCE, .. },
/// where `cert` is one complete value of that shape.
pub open spec fn certificate_tbs(cert: Seq<u8>) -> Option<Seq<u8>> {
    match parse_tlv(cert) {
        Some((t0, c, r0)) => if t0 != 0x30 || r0.len() != 0 {
            None
        } else {
            match parse_tlv(c) {
                Some((t1, tbs, _)) => if t1 != 0x30 {
                    None
                } else {
                    Some(tbs)
                },
                None => None,
            }
        },
        None => None,
    }
}

/// The fields of a tbsCertificate after its optional version `[0]`.
pub open spec fn tbs_fields(tbs: Seq<u8>) -> Seq<u8> {
    match parse_tlv(tbs) {
        Some((tv, _, rv)) => if tv == 0xA0 {
            rv
        } else {
            tbs
        },
        None => tbs,
    }
}

/// From `serialNumber INTEGER, signature SEQUENCE, issuer Name, ..`: the issuer
/// and the serial number, each as a DER value.
pub open spec fn fields_issuer_serial(fields: Seq<u8>) -> Option<(Seq<u8>, Seq<u8>)> {
    match parse_tlv(fields) {
        Some((ts, sc, r1)) => if ts != 0x02 {
            None
        } else {
            match parse_tlv(r1) {
                Some((ta, _, r2)) => if ta != 0x30 {
                    None
                } else {
                    match parse_tlv(r2) {
                        Some((ti, ic, _)) => if ti != 0x30 {
                            None
                        } else {
                            Some((tlv(0x30, ic), tlv(0x02, sc)))
                        },
                        None => None,
                    }
                },
                None => None,
            }
        },
        None => None,
    }
}

/// The issuer Name and the serialNumber INTEGER of an X.509 certificate, each
/// as a DER value: Certificate ::= SEQUENCE { tbsCertificate SEQUENCE {
/// version [0] OPTIONAL, serialNumber INTEGER, signature SEQUENCE, issuer Name, .. }, .. }.
/// `None` where `cert` is not one complete value of that shape.
pub open spec fn certificate_issuer_serial(cert: Seq<u8>) -> Option<(Seq<u8>, Seq<u8>)> {
    match certificate_tbs(cert) {
        Some(tbs) => fields_issuer_serial(tbs_fields(tbs)),
        None => None,
    }
}

fn fields_issuer_serial_in(s: &[u8], pos: usize, end: usize) -> (r: Option<(Vec<u8>, Vec<u8>)>)
    requires
        pos <= end <= s.len(),
    ensures
        match r {
            Some((i, n)) => fields_issuer_serial(s@.subrange(pos as int, end as int)) == Some(
                (i@, n@),
            ),
            None => fields_issuer_serial(s@.subrange(pos as int, end as int)) is None,
        },
{
    let (ts, ss, se) = match parse_tlv_in(s, pos, end) {
        Some(x) => x,
        None => return None,
    };
    if ts != 0x02 {
        return None;
    }
    let (ta, _as, ae) = match parse_tlv_in(s, se, end) {
        Some(x) => x,
        None => return None,
    };
    if ta != 0x30 {
        return None;
    }
    let (ti, is, ie) = match parse_tlv_in(s, ae, end) {
        Some(x) => x,
        None => return None,
    };
    if ti != 0x30 {
        return None;
    }
    let issuer_content = copy_range(s, is, ie);
    let serial_content = copy_range(s, ss, se);
    let issuer = encode_tlv(0x30, issuer_content.as_slice());
    let serial = encode_tlv(0x02, serial_content.as_slice());
    Some((issuer, serial))
}

/// The issuer Name and serial number of a certificate, as
/// `certificate_issuer_serial` says.
pub fn parse_certificate(cert: &[u8]) -> (r: Option<(Vec<u8>, Vec<u8>)>)
    ensures
        match r {
            Some((i, s)) => certificate_issuer_serial(cert@) == Some((i@, s@)),
            None => certificate_issuer_serial(cert@) is None,
        },
{
    let n = cert.len();
    assert(cert@.subrange(0, n as int) =~= cert@);
    let (t0, cs, ce) = match parse_tlv_in(cert, 0, n) {
        Some(x) => x,
        None => return None,
    };
    if t0 != 0x30 || ce != n {
        return None;
    }
    let (t1, tbs_s, tbs_e) = match parse_tlv_in(cert, cs, ce) {
        Some(x) => x,
        None => return None,
    };
    if t1 != 0x30 {
        return None;
    }
    assert(certificate_tbs(cert@) == Some(cert@.subrange(tbs_s as int, tbs_e as int)));
    let mut fields_start = tbs_s;
    match parse_tlv_in(cert, tbs_s, tbs_e) {
        Some((tv, _vs, ve)) => {
            if tv == 0xA0 {
                fields_start = ve;
            }
        },
        None => {},
    }
    assert(tbs_fields(cert@.subrange(tbs_s as int, tbs_e as int)) == cert@.subrange(
        fields_start as int,
        tbs_e as int,
    ));
    fields_issuer_serial_in(cert, fields_start, tbs_e)
}

/// The digestAlgorithm of a SignerInfo: the third field of SignerInfo ::= SEQUENCE
/// { version INTEGER, sid, digestAlgorithm SEQUENCE, .. }, as a DER value.
pub open spec fn signer_info_digest_algorithm(si: Seq<u8>) -> Option<Seq<u8>> {
    match parse_tlv(si) {
        Some((t0, c, r0)) => if t0 != 0x30 || r0.len() != 0 {
            None
        } else {
            match parse_tlv(c) {
                Some((tv, _, r1)) => if tv != 0x02 {
                    None
                } else {
                    match parse_tlv(r1) {
                        Some((_, _, r2)) => match parse_tlv(r2) {
                            Some((td, dc, _)) => if td != 0x30 {
                                None
                            } else {
                                Some(tlv(0x30, dc))
                            },
                            None => None,
                        },
                        None => None,
                    }
                },
                None => None,
            }
        },
        None => None,
    }
}

/// The digest algorithm of a SignerInfo, as `signer_info_digest_algorithm` says.
pub fn parse_signer_info_digest_algorithm(si: &[u8]) -> (r: Option<Vec<u8>>)
    ensures
        match r {
            Some(d) => signer_info_digest_algorithm(si@) == Some(d@),
            None => signer_info_digest_algorithm(si@) is None,
        },
{
    let n = si.len();
    assert(si@.subrange(0, n as int) =~= si@);
    let (t0, cs, ce) = match parse_tlv_in(si, 0, n) {
        Some(x) => x,
        None => return None,
    };
    if t0 != 0x30 || ce != n {
        return None;
    }
    let (tv, _vs, ve) = match parse_tlv_in(si, cs, ce) {
        Some(x) => x,
        None => return None,
    };
    if tv != 0x02 {
        return None;
    }
    let (_tsid, _ss, se) = match parse_tlv_in(si, ve, ce) {
        Some(x) => x,
        None => return None,
    };
    let (td, ds, de) = match parse_tlv_in(si, se, ce) {
        Some(x) => x,
        None => return None,
    };
    if td != 0x30 {
        return None;
    }
    let content = copy_range(si, ds, de);
    Some(encode_tlv(0x30, content.as_slice()))
}

/// Every SignerInfo of the list has a digest algorithm.
pub open spec fn all_signer_infos(sis: Seq<Seq<u8>>) -> bool {
    forall|i: int| 0 <= i < sis.len() ==> (#[trigger] signer_info_digest_algorithm(sis[i])) is Some
}

/// The outcome of reading an attached signature.
pub enum AttachedRead {
    /// The encapsulated content, the certificates and the SignerInfos.
    Parts(Seq<u8>, Seq<Seq<u8>>, Seq<Seq<u8>>),
    /// The octets are not a ContentInfo carrying a SignedData of the expected shape.
    Malformed,
    /// A content type other than the one expected: the contents of its OBJECT IDENTIFIER.
    UnsupportedContentType(Seq<u8>),
    /// The SignedData carries no encapsulated content.
    ContentMissing,
}

/// The fields of EncapsulatedContentInfo ::= SEQUENCE { eContentType OBJECT IDENTIFIER,
/// eContent [0] EXPLICIT OCTET STRING OPTIONAL }: the content type and the content.
pub open spec fn read_encap_fields(c: Seq<u8>) -> Option<(Seq<u8>, Option<Seq<u8>>)> {
    match parse_tlv(c) {
        Some((to, oc, r1)) => if to != 0x06 {
            None
        } else if r1.len() == 0 {
            Some((oc, None))
        } else {
            match parse_tlv(r1) {
                Some((tx, x, r2)) => if tx != 0xA0 || r2.len() != 0 {
                    None
                } else {
                    match parse_tlv(x) {
                        Some((tos, content, r3)) => if tos != 0x04 || r3.len() != 0 {
                            None
                        } else {
                            Some((oc, Some(content)))
                        },
                        None => None,
                    }
                },
                None => None,
            }
        },
        None => None,
    }
}

/// The certificates `[0]` that may start `c`, and what follows them.
pub open spec fn read_certificates(c: Seq<u8>) -> Option<(Seq<Seq<u8>>, Seq<u8>)> {
    match parse_tlv(c) {
        Some((t, cc, d)) => if t == 0xA0 {
            match parse_elements(cc) {
                Some(certs) => Some((certs, d)),
                None => None,
            }
        } else {
            Some((Seq::empty(), c))
        },
        None => Some((Seq::empty(), c)),
    }
}

/// What follows the revocation information `[1]` that may start `d`.
pub open spec fn skip_crls(d: Seq<u8>) -> Seq<u8> {
    match parse_tlv(d) {
        Some((t, _, e)) => if t == 0xA1 {
            e
        } else {
            d
        },
        None => d,
    }
}

/// The SignerInfos SET OF that must end the SignedData.
pub open spec fn read_signer_infos(e: Seq<u8>) -> Option<Seq<Seq<u8>>> {
    match parse_tlv(e) {
        Some((ts, sic, r)) => if ts != 0x31 || r.len() != 0 {
            None
        } else {
            match parse_elements(sic) {
                Some(sis) => if all_signer_infos(sis) {
                    Some(sis)
                } else {
                    None
                },
                None => None,
            }
        },
        None => None,
    }
}

/// The fields of a SignedData that follow its digestAlgorithms: the
/// encapsulated content type and content, the certificates and the SignerInfos.
pub open spec fn read_after_digests(b: Seq<u8>) -> Option<
    (Seq<u8>, Option<Seq<u8>>, Seq<Seq<u8>>, Seq<Seq<u8>>),
> {
    match parse_tlv(b) {
        Some((te, ec, c)) => if te != 0x30 {
            None
        } else {
            match read_encap_fields(ec) {
                None => None,
                Some((ect, econtent)) => match read_certificates(c) {
                    None => None,
                    Some((certs, d)) => match read_signer_infos(skip_crls(d)) {
                        None => None,
                        Some(sis) => Some((ect, econtent, certs, sis)),
                    },
                },
            }
        },
        None => None,
    }
}

/// SignedData ::= SEQUENCE { version INTEGER, digestAlgorithms SET OF,
/// encapContentInfo, certificates [0] OPTIONAL, crls [1] OPTIONAL, signerInfos SET OF }:
/// the encapsulated content type and content, the certificates and the SignerInfos.
pub open spec fn read_signed_data(inner: Seq<u8>) -> Option<
    (Seq<u8>, Option<Seq<u8>>, Seq<Seq<u8>>, Seq<Seq<u8>>),
> {
    match parse_tlv(inner) {
        Some((t0, sd, r0)) => if t0 != 0x30 || r0.len() != 0 {
            None
        } else {
            match parse_tlv(sd) {
                Some((tv, _, a)) => if tv != 0x02 {
                    None
                } else {
                    match parse_tlv(a) {
                        Some((tdg, dg, b)) => if tdg != 0x31 || parse_elements(dg) is None {
                            None
                        } else {
                            read_after_digests(b)
                        },
                        None => None,
                    }
                },
                None => None,
            }
        },
        None => None,
    }
}

fn read_encap_fields_in(s: &[u8], pos: usize, end: usize) -> (r: Option<(Vec<u8>, Option<Vec<u8>>)>)
    requires
        pos <= end <= s.len(),
    ensures
        match r {
            Some((o, c)) => read_encap_fields(s@.subrange(pos as int, end as int)) == Some(
                (
                    o@,
                    match c {
                        Some(v) => Some(v@),
                        None => None,
                    },
                ),
            ),
            None => read_encap_fields(s@.subrange(pos as int, end as int)) is None,
        },
{
    let (to, os, oe) = match parse_tlv_in(s, pos, end) {
        Some(x) => x,
        None => return None,
    };
    if to != 0x06 {
        return None;
    }
    let oid = copy_range(s, os, oe);
    if oe == end {
        return Some((oid, None));
    }
    let (tx, xs, xe) = match parse_tlv_in(s, oe, end) {
        Some(x) => x,
        None => return None,
    };
    if tx != 0xA0 || xe != end {
        return None;
    }
    let (tos, cs, ce) = match parse_tlv_in(s, xs, xe) {
        Some(x) => x,
        None => return None,
    };
    if tos != 0x04 || ce != xe {
        return None;
    }
    let content = copy_range(s, cs, ce);
    Some((oid, Some(content)))
}

fn read_certificates_in(s: &[u8], pos: usize, end: usize) -> (r: Option<(Vec<Vec<u8>>, usize)>)
    requires
        pos <= end <= s.len(),
    ensures
        match r {
            Some((certs, next)) => {
                &&& pos <= next <= end
                &&& read_certificates(s@.subrange(pos as int, end as int)) == Some(
                    (views(certs@), s@.subrange(next as int, end as int)),
                )
            },
            None => read_certificates(s@.subrange(pos as int, end as int)) is None,
        },
{
    match parse_tlv_in(s, pos, end) {
        Some((t, cs, ce)) => {
            if t == 0xA0 {
                match parse_elements_in(s, cs, ce) {
                    Some(certs) => Some((certs, ce)),
                    None => None,
                }
            } else {
                let v: Vec<Vec<u8>> = Vec::new();
                assert(views(v@) =~= Seq::<Seq<u8>>::empty());
                Some((v, pos))
            }
        },
        None => {
            let v: Vec<Vec<u8>> = Vec::new();
            assert(views(v@) =~= Seq::<Seq<u8>>::empty());
            Some((v, pos))
        },
    }
}

fn skip_crls_in(s: &[u8], pos: usize, end: usize) -> (next: usize)
    requires
        pos <= end <= s.len(),
    ensures
        pos <= next <= end,
        skip_crls(s@.subrange(pos as int, end as int)) == s@.subrange(next as int, end as int),
{
    match parse_tlv_in(s, pos, end) {
        Some((t, _cs, ce)) => if t == 0xA1 {
            ce
        } else {
            pos
        },
        None => pos,
    }
}

fn check_signer_infos(sis: &Vec<Vec<u8>>) -> (r: bool)
    ensures
        r == all_signer_infos(views(sis@)),
{
    let mut i: usize = 0;
    while i < sis.len()
        invariant
            i <= sis.len(),
            forall|k: int|
                0 <= k < i ==> (#[trigger] signer_info_digest_algorithm(views(sis@)[k])) is Some,
        decreases sis.len() - i,
    {
        match parse_signer_info_digest_algorithm(sis[i].as_slice()) {
            Some(_) => {},
            None => {
                assert(views(sis@)[i as int] == sis@[i as int]@);
                return false;
            },
        }
        assert(views(sis@)[i as int] == sis@[i as int]@);
        i = i + 1;
    }
    true
}

fn read_signer_infos_in(s: &[u8], pos: usize, end: usize) -> (r: Option<Vec<Vec<u8>>>)
    requires
        pos <= end <= s.len(),
    ensures
        match r {
            Some(sis) => read_signer_infos(s@.subrange(pos as int, end as int)) == Some(
                views(sis@),
            ),
            None => read_signer_infos(s@.subrange(pos as int, end as int)) is None,
        },
{
    let (ts, cs, ce) = match parse_tlv_in(s, pos, end) {
        Some(x) => x,
        None => return None,
    };
    if ts != 0x31 || ce != end {
        return None;
    }
    let sis = match parse_elements_in(s, cs, ce) {
        Some(x) => x,
        None => return None,
    };
    if check_signer_infos(&sis) {
        Some(sis)
    } else {
        None
    }
}

/// The parts of a SignedData: the encapsulated content type and content,
/// the certificates and the SignerInfos.
pub type SignedDataParts = (Vec<u8>, Option<Vec<u8>>, Vec<Vec<u8>>, Vec<Vec<u8>>);

/// The view of the parts of a SignedData.
pub open spec fn parts_view(p: SignedDataParts) -> (
    Seq<u8>,
    Option<Seq<u8>>,
    Seq<Seq<u8>>,
    Seq<Seq<u8>>,
) {
    (
        p.0@,
        match p.1 {
            Some(v) => Some(v@),
            None => None,
        },
        views(p.2@),
        views(p.3@),
    )
}

fn read_after_digests_in(s: &[u8], pos: usize, end: usize) -> (r: Option<SignedDataParts>)
    requires
        pos <= end <= s.len(),
    ensures
        match r {
            Some(p) => read_after_digests(s@.subrange(pos as int, end as int)) == Some(
                parts_view(p),
            ),
            None => read_after_digests(s@.subrange(pos as int, end as int)) is None,
        },
{
    let (te, es, ee) = match parse_tlv_in(s, pos, end) {
        Some(x) => x,
        None => return None,
    };
    if te != 0x30 {
        return None;
    }
    let (ect, econtent) = match read_encap_fields_in(s, es, ee) {
        Some(x) => x,
        None => return None,
    };
    let (certs, d) = match read_certificates_in(s, ee, end) {
        Some(x) => x,
        None => return None,
    };
    let e = skip_crls_in(s, d, end);
    let sis = match read_signer_infos_in(s, e, end) {
        Some(x) => x,
        None => return None,
    };
    Some((ect, econtent, certs, sis))
}

/// Reads the SignedData in `s[pos..end]`, as `read_signed_data` says.
pub fn read_signed_data_in(s: &[u8], pos: usize, end: usize) -> (r: Option<SignedDataParts>)
    requires
        pos <= end <= s.len(),
    ensures
        match r {
            Some(p) => read_signed_data(s@.subrange(pos as int, end as int)) == Some(parts_view(p)),
            None => read_signed_data(s@.subrange(pos as int, end as int)) is None,
        },
{
    let (t0, ss, se) = match parse_tlv_in(s, pos, end) {
        Some(x) => x,
        None => return None,
    };
    if t0 != 0x30 || se != end {
        return None;
    }
    let (tv, _vs, ve) = match parse_tlv_in(s, ss, se) {
        Some(x) => x,
        None => return None,
    };
    if tv != 0x02 {
        return None;
    }
    let (tdg, ds, de) = match parse_tlv_in(s, ve, se) {
        Some(x) => x,
        None => return None,
    };
    if tdg != 0x31 {
        return None;
    }
    match parse_elements_in(s, ds, de) {
        Some(_) => {},
        None => return None,
    }
    read_after_digests_in(s, de, se)
}

/// Reads an attached CAdES signature: a ContentInfo ::= SEQUENCE { contentType,
/// content [0] EXPLICIT } whose content type must be id-signedData, carrying a
/// SignedData whose encapsulated content type must be id-data and whose
/// encapsulated content must be present.
pub open spec fn read_attached(s: Seq<u8>, signed_data_oid: Seq<u8>, data_oid: Seq<u8>) -> AttachedRead {
    match read_content_info(s) {
        None => AttachedRead::Malformed,
        Some((ct, inner)) => if ct != signed_data_oid {
            AttachedRead::UnsupportedContentType(ct)
        } else {
            read_signed_content(inner, data_oid)
        },
    }
}

/// Whether `der` is a DER X.509 Certificate, as `rasn` decodes one
/// (`rasn::der::decode::<rasn_cms::Certificate>`).
pub uninterp spec fn is_certificate_der(der: Seq<u8>) -> bool;

/// Whether `der` is a DER CMS ContentInfo, as `rasn` decodes one
/// (`rasn::der::decode::<rasn_cms::ContentInfo>`).
pub uninterp spec fn is_content_info_der(der: Seq<u8>) -> bool;

/// Whether `der` is a DER CMS SignedData, as `rasn` decodes one
/// (`rasn::der::decode::<rasn_cms::SignedData>`).
pub uninterp spec fn is_signed_data_der(der: Seq<u8>) -> bool;

/// Calls `rasn::der::decode::<rasn_cms::Certificate>`. Trusted: whether it
/// decodes is named `is_certificate_der`.
#[verifier::external_body]
pub(crate) fn decodes_as_certificate(der: &[u8]) -> (r: bool)
    ensures
        r == is_certificate_der(der@),
{
    rasn::der::decode::<rasn_cms::Certificate>(der).is_ok()
}

/// Calls `rasn::der::decode::<rasn_cms::ContentInfo>`. Trusted: whether it
/// decodes is named `is_content_info_der`.
#[verifier::external_body]
pub(crate) fn decodes_as_content_info(der: &[u8]) -> (r: bool)
    ensures
        r == is_content_info_der(der@),
{
    rasn::der::decode::<rasn_cms::ContentInfo>(der).is_ok()
}

/// Calls `rasn::der::decode::<rasn_cms::SignedData>`. Trusted: whether it
/// decodes is named `is_signed_data_der`.
#[verifier::external_body]
pub(crate) fn decodes_as_signed_data(der: &[u8]) -> (r: bool)
    ensures
        r == is_signed_data_der(der@),
{
    rasn::der::decode::<rasn_cms::SignedData>(der).is_ok()
}

/// The content type and the content of a ContentInfo ::= SEQUENCE
/// { contentType OBJECT IDENTIFIER, content [0] EXPLICIT ANY }: the contents
/// of the identifier, and the value inside the [0].
pub open spec fn read_content_info(s: Seq<u8>) -> Option<(Seq<u8>, Seq<u8>)> {
    match parse_tlv(s) {
        Some((t0, ci, r0)) => if t0 != 0x30 || r0.len() != 0 {
            None
        } else {
            match parse_tlv(ci) {
                Some((to, ct, r1)) => if to != 0x06 {
                    None
                } else {
                    match parse_tlv(r1) {
                        Some((tx, inner, r2)) => if tx != 0xA0 || r2.len() != 0 || parse_tlv(
                            inner,
                        ) is None {
                            None
                        } else {
                            Some((ct, inner))
                        },
                        None => None,
                    }
                },
                None => None,
            }
        },
        None => None,
    }
}

/// What an attached signature holds once its ContentInfo named SignedData:
/// the payload, certificates and SignerInfos of the SignedData `inner`, or why
/// there are none.
pub open spec fn read_signed_content(inner: Seq<u8>, data_oid: Seq<u8>) -> AttachedRead {
    match read_signed_data(inner) {
        None => AttachedRead::Malformed,
        Some((ect, econtent, certs, sis)) => if ect != data_oid {
            AttachedRead::UnsupportedContentType(ect)
        } else {
            match econtent {
                None => AttachedRead::ContentMissing,
                Some(p) => AttachedRead::Parts(p, certs, sis),
            }
        },
    }
}

/// What reading the attached signature `s` gives, where `rasn` decodes the
/// CMS structures (a ContentInfo, then the SignedData inside it) and this
/// module reads their fields: `Malformed` where either does not decode, the
/// ContentInfo's type checked before the SignedData is decoded.
pub open spec fn accepted_attached(s: Seq<u8>, signed_data_oid: Seq<u8>, data_oid: Seq<u8>) -> AttachedRead {
    if !is_content_info_der(s) {
        AttachedRead::Malformed
    } else {
        match read_content_info(s) {
            None => AttachedRead::Malformed,
            Some((ct, inner)) => if ct != signed_data_oid {
                AttachedRead::UnsupportedContentType(ct)
            } else if !is_signed_data_der(inner) {
                AttachedRead::Malformed
            } else {
                read_signed_content(inner, data_oid)
            },
        }
    }
}

} // verus!
