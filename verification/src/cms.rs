//! DER encodings of the CMS (RFC 5652) and ESS (RFC 5035) structures that a
//! CAdES signature is made of.
use vstd::prelude::*;
use crate::der::{append_bytes, parse_tlv, parse_tlv_in, push_tlv, tlv};
use crate::digest::{sha256, sha256_digest};
use crate::oid::{
    id_content_type, id_content_type_arcs, id_data, id_data_arcs, id_message_digest,
    id_message_digest_arcs, id_sha256, id_sha256_arcs, id_signed_data, id_signed_data_arcs,
    id_signing_certificate_v2, id_signing_certificate_v2_arcs, id_signing_time,
    id_signing_time_arcs, oid_content, Oid,
};
use crate::order::{encode_set_of_content, set_of_content, views};
use crate::time::{encode_utc_time, utc_time_content, valid_instant, UtcInstant};

verus! {

/// An OBJECT IDENTIFIER with the given contents.
pub open spec fn oid_der(content: Seq<u8>) -> Seq<u8> {
    tlv(0x06, content)
}

/// The octets of an optional part, none where it is absent.
pub open spec fn opt_bytes(o: Option<Seq<u8>>) -> Seq<u8> {
    match o {
        Some(b) => b,
        None => Seq::empty(),
    }
}

/// The view of an optional octet string.
pub open spec fn opt_view(o: Option<Vec<u8>>) -> Option<Seq<u8>> {
    match o {
        Some(v) => Some(v@),
        None => None,
    }
}

/// The INTEGER 1, the version of the SignerInfos written here.
pub open spec fn int_one_der() -> Seq<u8> {
    tlv(0x02, seq![1u8])
}

/// An INTEGER below 128.
pub open spec fn small_int_der(v: u8) -> Seq<u8> {
    tlv(0x02, seq![v])
}

/// Whether one of the CertificateChoices `certs` is the alternative with the
/// context tag `tag` ([1] v1AttrCert 0xA1, [2] v2AttrCert 0xA2, [3] other 0xA3).
pub open spec fn has_choice(certs: Seq<Seq<u8>>, tag: u8) -> bool {
    exists|i: int| 0 <= i < certs.len() && certs[i].len() > 0 && #[trigger] certs[i][0] == tag
}

/// Whether the SignerInfo `si` is of version 3: its first field is the INTEGER 3.
pub open spec fn signer_info_version_3(si: Seq<u8>) -> bool {
    &&& parse_tlv(si) matches Some((_, c, _))
    &&& parse_tlv(c) matches Some((t, v, _))
    &&& t == 0x02
    &&& v == seq![3u8]
}

/// Whether one of the SignerInfos `sis` is of version 3.
pub open spec fn has_version_3(sis: Seq<Seq<u8>>) -> bool {
    exists|i: int| 0 <= i < sis.len() && #[trigger] signer_info_version_3(sis[i])
}

/// The version of a SignedData (RFC 5652, 5.1) with the certificates `certs`,
/// the SignerInfos `sis`, no CRLs and the content type id-data: 5 with an
/// `other` certificate, else 4 with a version 2 attribute certificate, else 3
/// with a version 1 attribute certificate or a SignerInfo of version 3, else 1.
pub open spec fn signed_data_version(certs: Seq<Seq<u8>>, sis: Seq<Seq<u8>>) -> u8 {
    if has_choice(certs, 0xA3) {
        5
    } else if has_choice(certs, 0xA2) {
        4
    } else if has_choice(certs, 0xA1) || has_version_3(sis) {
        3
    } else {
        1
    }
}

/// Whether one of `certs` starts with the tag `tag`.
fn find_choice(certs: &Vec<Vec<u8>>, tag: u8) -> (r: bool)
    ensures
        r == has_choice(views(certs@), tag),
{
    let ghost cs = views(certs@);
    let mut i: usize = 0;
    while i < certs.len()
        invariant
            i <= certs.len(),
            cs == views(certs@),
            forall|k: int| 0 <= k < i ==> !(cs[k].len() > 0 && #[trigger] cs[k][0] == tag),
        decreases certs.len() - i,
    {
        assert(cs[i as int] == certs@[i as int]@);
        if certs[i].len() > 0 && certs[i][0] == tag {
            assert(cs[i as int][0] == tag);
            return true;
        }
        i = i + 1;
    }
    false
}

/// Whether `si` is a SignerInfo of version 3.
fn is_version_3(si: &[u8]) -> (r: bool)
    ensures
        r == signer_info_version_3(si@),
{
    let n = si.len();
    assert(si@.subrange(0, n as int) =~= si@);
    let (_t0, cs, ce) = match parse_tlv_in(si, 0, n) {
        Some(x) => x,
        None => return false,
    };
    assert(si@.subrange(cs as int, ce as int).subrange(0, (ce - cs) as int) =~= si@.subrange(
        cs as int,
        ce as int,
    ));
    let (tv, vs, ve) = match parse_tlv_in(si, cs, ce) {
        Some(x) => x,
        None => return false,
    };
    if tv != 0x02 || ve - vs != 1 {
        assert(si@.subrange(vs as int, ve as int).len() == ve - vs);
        assert(tv != 0x02 || si@.subrange(vs as int, ve as int) != seq![3u8]);
        return false;
    }
    let r = si[vs] == 3;
    assert(r == (si@.subrange(vs as int, ve as int) == seq![3u8])) by {
        if si@.subrange(vs as int, ve as int) == seq![3u8] {
            assert(si@.subrange(vs as int, ve as int)[0] == si[vs as int]);
        }
        if r {
            assert(si@.subrange(vs as int, ve as int) =~= seq![3u8]);
        }
    }
    r
}

/// Whether one of `sis` is a SignerInfo of version 3.
fn find_version_3(sis: &Vec<Vec<u8>>) -> (r: bool)
    ensures
        r == has_version_3(views(sis@)),
{
    let ghost ss = views(sis@);
    let mut i: usize = 0;
    while i < sis.len()
        invariant
            i <= sis.len(),
            ss == views(sis@),
            forall|k: int| 0 <= k < i ==> !#[trigger] signer_info_version_3(ss[k]),
        decreases sis.len() - i,
    {
        assert(ss[i as int] == sis@[i as int]@);
        if is_version_3(sis[i].as_slice()) {
            return true;
        }
        i = i + 1;
    }
    false
}

/// The version of a SignedData, as `signed_data_version` says.
pub fn compute_signed_data_version(certs: &Vec<Vec<u8>>, sis: &Vec<Vec<u8>>) -> (r: u8)
    ensures
        r == signed_data_version(views(certs@), views(sis@)),
{
    if find_choice(certs, 0xA3) {
        5
    } else if find_choice(certs, 0xA2) {
        4
    } else if find_choice(certs, 0xA1) || find_version_3(sis) {
        3
    } else {
        1
    }
}

/// AlgorithmIdentifier ::= SEQUENCE { algorithm OBJECT IDENTIFIER, parameters ANY OPTIONAL }
pub open spec fn algorithm_identifier_der(oid: Seq<u8>, params: Option<Seq<u8>>) -> Seq<u8> {
    tlv(0x30, oid_der(oid) + opt_bytes(params))
}

/// The AlgorithmIdentifier of SHA-256 without parameters.
pub open spec fn sha256_algorithm_der() -> Seq<u8> {
    algorithm_identifier_der(oid_content(id_sha256_arcs()), None)
}

/// Attribute ::= SEQUENCE { attrType OBJECT IDENTIFIER, attrValues SET OF ANY }
pub open spec fn attribute_der(oid: Seq<u8>, values: Seq<Seq<u8>>) -> Seq<u8> {
    tlv(0x30, oid_der(oid) + tlv(0x31, set_of_content(values)))
}

/// The content-type attribute that names id-data.
pub open spec fn content_type_attribute_der() -> Seq<u8> {
    attribute_der(oid_content(id_content_type_arcs()), seq![oid_der(oid_content(id_data_arcs()))])
}

/// The signing-time attribute of the instant `t`.
pub open spec fn signing_time_attribute_der(t: UtcInstant) -> Seq<u8> {
    attribute_der(oid_content(id_signing_time_arcs()), seq![tlv(0x17, utc_time_content(t))])
}

/// The message-digest attribute of `payload`: its SHA-256 digest as an OCTET STRING.
pub open spec fn message_digest_attribute_der(payload: Seq<u8>) -> Seq<u8> {
    attribute_der(oid_content(id_message_digest_arcs()), seq![tlv(0x04, sha256(payload))])
}

/// SigningCertificateV2 ::= SEQUENCE { certs SEQUENCE OF ESSCertIDv2 } with the one
/// ESSCertIDv2 of `cert`: its SHA-256 hash (the default hash algorithm, so not
/// written) and IssuerSerial ::= SEQUENCE { issuer GeneralNames, serialNumber },
/// the issuer given as one directoryName `[4]`.
pub open spec fn signing_certificate_v2_der(cert: Seq<u8>, issuer: Seq<u8>, serial: Seq<u8>) -> Seq<
    u8,
> {
    let issuer_serial = tlv(0x30, tlv(0x30, tlv(0xA4, issuer)) + serial);
    let ess_cert_id = tlv(0x30, tlv(0x04, sha256(cert)) + issuer_serial);
    tlv(0x30, tlv(0x30, ess_cert_id))
}

/// The signing-certificate-v2 attribute of `cert`.
pub open spec fn signing_certificate_v2_attribute_der(
    cert: Seq<u8>,
    issuer: Seq<u8>,
    serial: Seq<u8>,
) -> Seq<u8> {
    attribute_der(
        oid_content(id_signing_certificate_v2_arcs()),
        seq![signing_certificate_v2_der(cert, issuer, serial)],
    )
}

/// The signed attributes of a signer: those it adds, then content type,
/// signing time, message digest and signing certificate.
pub open spec fn signed_attributes(
    additional: Seq<Seq<u8>>,
    t: UtcInstant,
    payload: Seq<u8>,
    cert: Seq<u8>,
    issuer: Seq<u8>,
    serial: Seq<u8>,
) -> Seq<Seq<u8>> {
    additional + seq![
        content_type_attribute_der(),
        signing_time_attribute_der(t),
        message_digest_attribute_der(payload),
        signing_certificate_v2_attribute_der(cert, issuer, serial),
    ]
}

/// The encoding that is signed: the signed attributes as a DER SET OF (RFC 5652 5.4).
pub open spec fn signed_attributes_to_sign(attrs: Seq<Seq<u8>>) -> Seq<u8> {
    tlv(0x31, set_of_content(attrs))
}

/// The unsigned attributes of a SignerInfo, `[1]`, when present.
pub open spec fn unsigned_attributes_der(unsigned: Option<Seq<Seq<u8>>>) -> Seq<u8> {
    match unsigned {
        Some(u) => tlv(0xA1, set_of_content(u)),
        None => Seq::empty(),
    }
}

/// SignerInfo ::= SEQUENCE { version 1, sid IssuerAndSerialNumber, digestAlgorithm,
/// signedAttrs [0], signatureAlgorithm, signature OCTET STRING, unsignedAttrs [1] OPTIONAL }
pub open spec fn signer_info_der(
    issuer: Seq<u8>,
    serial: Seq<u8>,
    signed_attrs: Seq<Seq<u8>>,
    signature_algorithm: Seq<u8>,
    signature: Seq<u8>,
    unsigned: Option<Seq<Seq<u8>>>,
) -> Seq<u8> {
    tlv(
        0x30,
        int_one_der() + tlv(0x30, issuer + serial) + sha256_algorithm_der() + tlv(
            0xA0,
            set_of_content(signed_attrs),
        ) + signature_algorithm + tlv(0x04, signature) + unsigned_attributes_der(unsigned),
    )
}

/// EncapsulatedContentInfo ::= SEQUENCE { eContentType id-data, eContent [0] EXPLICIT OCTET STRING OPTIONAL }
pub open spec fn encap_content_info_der(content: Option<Seq<u8>>) -> Seq<u8> {
    tlv(
        0x30,
        oid_der(oid_content(id_data_arcs())) + match content {
            Some(c) => tlv(0xA0, tlv(0x04, c)),
            None => Seq::empty(),
        },
    )
}

/// The certificates of a SignedData, `[0]`, present only when there is one.
pub open spec fn certificates_der(certs: Seq<Seq<u8>>) -> Seq<u8> {
    if certs.len() == 0 {
        Seq::empty()
    } else {
        tlv(0xA0, set_of_content(certs))
    }
}

/// SignedData ::= SEQUENCE { version 1, digestAlgorithms SET OF, encapContentInfo,
/// certificates [0] OPTIONAL, signerInfos SET OF }
pub open spec fn signed_data_der(
    digest_algorithms: Seq<Seq<u8>>,
    encap: Seq<u8>,
    certs: Seq<Seq<u8>>,
    signer_infos: Seq<Seq<u8>>,
) -> Seq<u8> {
    tlv(
        0x30,
        small_int_der(signed_data_version(certs, signer_infos)) + tlv(
            0x31,
            set_of_content(digest_algorithms),
        ) + encap + certificates_der(certs) + tlv(0x31, set_of_content(signer_infos)),
    )
}

/// ContentInfo ::= SEQUENCE { contentType id-signedData, content [0] EXPLICIT SignedData }
pub open spec fn content_info_der(signed_data: Seq<u8>) -> Seq<u8> {
    tlv(0x30, oid_der(oid_content(id_signed_data_arcs())) + tlv(0xA0, signed_data))
}

// ---------------------------------------------------------------- values

/// An algorithm and its optional parameters, the parameters as a DER value.
pub struct AlgorithmIdentifier {
    pub algorithm: Oid,
    pub parameters: Option<Vec<u8>>,
}

impl AlgorithmIdentifier {
    /// The DER encoding of this identifier.
    pub open spec fn der(&self) -> Seq<u8> {
        algorithm_identifier_der(self.algorithm@, opt_view(self.parameters))
    }

    /// sha256WithRSAEncryption without parameters: the algorithm of the
    /// signatures that a PKCS#11 token makes with `CKM_SHA256_RSA_PKCS`.
    pub fn sha256_with_rsa_encryption() -> (r: AlgorithmIdentifier)
        ensures
            r.der() == algorithm_identifier_der(
                oid_content(crate::oid::sha256_with_rsa_encryption_arcs()),
                None,
            ),
    {
        AlgorithmIdentifier { algorithm: crate::oid::sha256_with_rsa_encryption(), parameters: None }
    }

    /// Encodes this identifier.
    pub fn encode(&self) -> (r: Vec<u8>)
        ensures
            r@ == self.der(),
    {
        let mut content = Vec::new();
        push_tlv(&mut content, 0x06, self.algorithm.as_bytes());
        match &self.parameters {
            Some(p) => append_bytes(&mut content, p.as_slice()),
            None => {},
        }
        assert(content@ =~= oid_der(self.algorithm@) + opt_bytes(opt_view(self.parameters)));
        let mut out = Vec::new();
        push_tlv(&mut out, 0x30, content.as_slice());
        assert(out@ =~= self.der());
        out
    }
}

/// An attribute: its type and its values, each value a DER value.
pub struct Attribute {
    pub attr_type: Oid,
    pub values: Vec<Vec<u8>>,
}

/// Copies a list of octet strings.
pub fn copy_all(v: &Vec<Vec<u8>>) -> (r: Vec<Vec<u8>>)
    ensures
        views(r@) == views(v@),
{
    let mut out: Vec<Vec<u8>> = Vec::new();
    let mut i: usize = 0;
    while i < v.len()
        invariant
            i <= v.len(),
            views(out@) == views(v@).subrange(0, i as int),
        decreases v.len() - i,
    {
        let c = crate::order::copy_bytes(v[i].as_slice());
        let ghost before = views(out@);
        out.push(c);
        assert(views(out@) =~= before.push(c@));
        i = i + 1;
        assert(views(out@) =~= views(v@).subrange(0, i as int));
    }
    assert(views(v@).subrange(0, v.len() as int) =~= views(v@));
    out
}

/// The attribute of the given type with one value.
fn single_value_attribute(oid: &Oid, value: Vec<u8>) -> (r: Vec<u8>)
    ensures
        r@ == attribute_der(oid@, seq![value@]),
{
    let ghost vv = value@;
    let mut values: Vec<Vec<u8>> = Vec::new();
    values.push(value);
    assert(views(values@) =~= seq![vv]);
    encode_attribute(oid, values)
}

fn encode_attribute(oid: &Oid, values: Vec<Vec<u8>>) -> (r: Vec<u8>)
    ensures
        r@ == attribute_der(oid@, views(values@)),
{
    let ghost vs = views(values@);
    let set = encode_set_of_content(values);
    let mut content = Vec::new();
    push_tlv(&mut content, 0x06, oid.as_bytes());
    push_tlv(&mut content, 0x31, set.as_slice());
    let mut out = Vec::new();
    push_tlv(&mut out, 0x30, content.as_slice());
    assert(content@ =~= oid_der(oid@) + tlv(0x31, set_of_content(vs)));
    assert(out@ =~= attribute_der(oid@, vs));
    out
}

impl Attribute {
    /// The DER encoding of this attribute.
    pub open spec fn der(&self) -> Seq<u8> {
        attribute_der(self.attr_type@, views(self.values@))
    }

    /// Encodes this attribute.
    pub fn encode(&self) -> (r: Vec<u8>)
        ensures
            r@ == self.der(),
    {
        encode_attribute(&self.attr_type, copy_all(&self.values))
    }
}

/// The DER encodings of a list of attributes.
pub open spec fn attributes_der(attrs: Seq<Attribute>) -> Seq<Seq<u8>> {
    Seq::new(attrs.len(), |i: int| attrs[i].der())
}

/// Attributes as DER values, `None` where there are none.
pub open spec fn attributes_view(a: Option<Vec<Attribute>>) -> Option<Seq<Seq<u8>>> {
    match a {
        Some(v) => Some(attributes_der(v@)),
        None => None,
    }
}

/// Encodes each attribute of a list.
pub fn encode_attributes(attrs: &Vec<Attribute>) -> (r: Vec<Vec<u8>>)
    ensures
        views(r@) == attributes_der(attrs@),
{
    let mut out: Vec<Vec<u8>> = Vec::new();
    let mut i: usize = 0;
    while i < attrs.len()
        invariant
            i <= attrs.len(),
            views(out@) == attributes_der(attrs@).subrange(0, i as int),
        decreases attrs.len() - i,
    {
        let e = attrs[i].encode();
        let ghost before = views(out@);
        out.push(e);
        assert(views(out@) =~= before.push(e@));
        i = i + 1;
        assert(views(out@) =~= attributes_der(attrs@).subrange(0, i as int));
    }
    assert(attributes_der(attrs@).subrange(0, attrs.len() as int) =~= attributes_der(attrs@));
    out
}

/// The content-type attribute: id-data.
pub fn content_type_attribute() -> (r: Vec<u8>)
    ensures
        r@ == content_type_attribute_der(),
{
    let data = id_data();
    let value = crate::der::encode_tlv(0x06, data.as_bytes());
    single_value_attribute(&id_content_type(), value)
}

/// The signing-time attribute of `t`.
pub fn signing_time_attribute(t: &UtcInstant) -> (r: Vec<u8>)
    requires
        valid_instant(*t),
    ensures
        r@ == signing_time_attribute_der(*t),
{
    let time = encode_utc_time(t);
    let value = crate::der::encode_tlv(0x17, time.as_slice());
    single_value_attribute(&id_signing_time(), value)
}

/// The message-digest attribute of `payload`.
pub fn message_digest_attribute(payload: &[u8]) -> (r: Vec<u8>)
    ensures
        r@ == message_digest_attribute_der(payload@),
{
    let digest = sha256_digest(payload);
    let value = crate::der::encode_tlv(0x04, digest.as_slice());
    single_value_attribute(&id_message_digest(), value)
}

/// The signing-certificate-v2 attribute of a certificate with the given
/// issuer Name and serial number INTEGER.
pub fn signing_certificate_v2_attribute(cert: &[u8], issuer: &[u8], serial: &[u8]) -> (r: Vec<
    u8,
>)
    ensures
        r@ == signing_certificate_v2_attribute_der(cert@, issuer@, serial@),
{
    let hash = sha256_digest(cert);
    let directory_name = crate::der::encode_tlv(0xA4, issuer);
    let general_names = crate::der::encode_tlv(0x30, directory_name.as_slice());
    let mut issuer_serial_content = general_names;
    append_bytes(&mut issuer_serial_content, serial);
    let issuer_serial = crate::der::encode_tlv(0x30, issuer_serial_content.as_slice());
    let mut ess_content = crate::der::encode_tlv(0x04, hash.as_slice());
    append_bytes(&mut ess_content, issuer_serial.as_slice());
    let ess = crate::der::encode_tlv(0x30, ess_content.as_slice());
    let certs = crate::der::encode_tlv(0x30, ess.as_slice());
    let value = crate::der::encode_tlv(0x30, certs.as_slice());
    assert(value@ =~= signing_certificate_v2_der(cert@, issuer@, serial@));
    single_value_attribute(&id_signing_certificate_v2(), value)
}

/// The AlgorithmIdentifier of SHA-256.
pub fn sha256_algorithm() -> (r: Vec<u8>)
    ensures
        r@ == sha256_algorithm_der(),
{
    let a = AlgorithmIdentifier { algorithm: id_sha256(), parameters: None };
    a.encode()
}

/// Encodes a SignerInfo.
pub fn encode_signer_info(
    issuer: &[u8],
    serial: &[u8],
    signed_attrs: Vec<Vec<u8>>,
    signature_algorithm: &[u8],
    signature: &[u8],
    unsigned: Option<Vec<Vec<u8>>>,
) -> (r: Vec<u8>)
    ensures
        r@ == signer_info_der(
            issuer@,
            serial@,
            views(signed_attrs@),
            signature_algorithm@,
            signature@,
            match unsigned {
                Some(u) => Some(views(u@)),
                None => None,
            },
        ),
{
    let ghost sa = views(signed_attrs@);
    let ghost ua = match &unsigned {
        Some(u) => Some(views(u@)),
        None => None::<Seq<Seq<u8>>>,
    };
    let mut content = Vec::new();
    push_tlv(&mut content, 0x02, &[1u8]);
    let mut sid = Vec::new();
    append_bytes(&mut sid, issuer);
    append_bytes(&mut sid, serial);
    push_tlv(&mut content, 0x30, sid.as_slice());
    let dig = sha256_algorithm();
    append_bytes(&mut content, dig.as_slice());
    let attrs = encode_set_of_content(signed_attrs);
    push_tlv(&mut content, 0xA0, attrs.as_slice());
    append_bytes(&mut content, signature_algorithm);
    push_tlv(&mut content, 0x04, signature);
    match unsigned {
        Some(u) => {
            let uc = encode_set_of_content(u);
            push_tlv(&mut content, 0xA1, uc.as_slice());
        },
        None => {},
    }
    assert([1u8]@ =~= seq![1u8]);
    assert(content@ =~= int_one_der() + tlv(0x30, issuer@ + serial@) + sha256_algorithm_der() + tlv(
        0xA0,
        set_of_content(sa),
    ) + signature_algorithm@ + tlv(0x04, signature@) + unsigned_attributes_der(ua));
    crate::der::encode_tlv(0x30, content.as_slice())
}

/// Encodes an EncapsulatedContentInfo of id-data, with the content when given.
pub fn encode_encap_content_info(content: Option<&[u8]>) -> (r: Vec<u8>)
    ensures
        r@ == encap_content_info_der(
            match content {
                Some(c) => Some(c@),
                None => None,
            },
        ),
{
    let mut inner = Vec::new();
    let data = id_data();
    push_tlv(&mut inner, 0x06, data.as_bytes());
    match content {
        Some(c) => {
            let os = crate::der::encode_tlv(0x04, c);
            push_tlv(&mut inner, 0xA0, os.as_slice());
        },
        None => {},
    }
    let ghost co = match content {
        Some(c) => Some(c@),
        None => None::<Seq<u8>>,
    };
    assert(inner@ =~= oid_der(oid_content(id_data_arcs())) + match co {
        Some(c) => tlv(0xA0, tlv(0x04, c)),
        None => Seq::empty(),
    });
    crate::der::encode_tlv(0x30, inner.as_slice())
}

/// Encodes a SignedData.
pub fn encode_signed_data(
    digest_algorithms: Vec<Vec<u8>>,
    encap: &[u8],
    certs: Vec<Vec<u8>>,
    signer_infos: Vec<Vec<u8>>,
) -> (r: Vec<u8>)
    ensures
        r@ == signed_data_der(
            views(digest_algorithms@),
            encap@,
            views(certs@),
            views(signer_infos@),
        ),
{
    let ghost d = views(digest_algorithms@);
    let ghost c = views(certs@);
    let ghost s = views(signer_infos@);
    let version = compute_signed_data_version(&certs, &signer_infos);
    let mut content = Vec::new();
    let version_octets = [version];
    push_tlv(&mut content, 0x02, &version_octets);
    let dc = encode_set_of_content(digest_algorithms);
    push_tlv(&mut content, 0x31, dc.as_slice());
    append_bytes(&mut content, encap);
    if certs.len() > 0 {
        let cc = encode_set_of_content(certs);
        push_tlv(&mut content, 0xA0, cc.as_slice());
    }
    let sc = encode_set_of_content(signer_infos);
    push_tlv(&mut content, 0x31, sc.as_slice());
    assert(version_octets@ =~= seq![version]);
    assert(content@ =~= small_int_der(version) + tlv(0x31, set_of_content(d)) + encap@
        + certificates_der(c) + tlv(0x31, set_of_content(s)));
    crate::der::encode_tlv(0x30, content.as_slice())
}

/// Encodes the ContentInfo that carries a SignedData.
pub fn encode_content_info(signed_data: &[u8]) -> (r: Vec<u8>)
    ensures
        r@ == content_info_der(signed_data@),
{
    let mut content = Vec::new();
    let sd = id_signed_data();
    push_tlv(&mut content, 0x06, sd.as_bytes());
    push_tlv(&mut content, 0xA0, signed_data);
    assert(content@ =~= oid_der(oid_content(id_signed_data_arcs())) + tlv(0xA0, signed_data@));
    crate::der::encode_tlv(0x30, content.as_slice())
}

} // verus!
