use firmina::der::encode_tlv;
use firmina::cades::Cades;
use firmina::cms::{AlgorithmIdentifier, Attribute};
use firmina::error::CadesError;
use firmina::oid::Oid;
use firmina::sign::{build_content_info, build_encap_content_info, EncapContent};
use firmina::signer::{Signer, SignerError};
use rasn_cms::{ContentInfo, SignedData};
use sha2::Digest;

const CERT: [u8; 320] = [
    0x30, 0x82, 0x01, 0x3c, 0x30, 0x81, 0xe2, 0xa0, 0x03, 0x02, 0x01, 0x02, 0x02, 0x08, 0x12, 0x34,
    0x56, 0x78, 0x90, 0xab, 0xcd, 0xef, 0x30, 0x0a, 0x06, 0x08, 0x2a, 0x86, 0x48, 0xce, 0x3d, 0x04,
    0x03, 0x02, 0x30, 0x24, 0x31, 0x0b, 0x30, 0x09, 0x06, 0x03, 0x55, 0x04, 0x06, 0x13, 0x02, 0x49,
    0x54, 0x31, 0x15, 0x30, 0x13, 0x06, 0x03, 0x55, 0x04, 0x03, 0x0c, 0x0c, 0x46, 0x69, 0x72, 0x6d,
    0x69, 0x6e, 0x61, 0x20, 0x54, 0x65, 0x73, 0x74, 0x30, 0x1e, 0x17, 0x0d, 0x32, 0x34, 0x30, 0x31,
    0x30, 0x31, 0x30, 0x30, 0x30, 0x30, 0x30, 0x30, 0x5a, 0x17, 0x0d, 0x33, 0x34, 0x30, 0x31, 0x30,
    0x31, 0x30, 0x30, 0x30, 0x30, 0x30, 0x30, 0x5a, 0x30, 0x24, 0x31, 0x0b, 0x30, 0x09, 0x06, 0x03,
    0x55, 0x04, 0x06, 0x13, 0x02, 0x49, 0x54, 0x31, 0x15, 0x30, 0x13, 0x06, 0x03, 0x55, 0x04, 0x03,
    0x0c, 0x0c, 0x46, 0x69, 0x72, 0x6d, 0x69, 0x6e, 0x61, 0x20, 0x54, 0x65, 0x73, 0x74, 0x30, 0x59,
    0x30, 0x13, 0x06, 0x07, 0x2a, 0x86, 0x48, 0xce, 0x3d, 0x02, 0x01, 0x06, 0x08, 0x2a, 0x86, 0x48,
    0xce, 0x3d, 0x03, 0x01, 0x07, 0x03, 0x42, 0x00, 0x04, 0xfb, 0x50, 0x38, 0x8f, 0x29, 0x49, 0x8d,
    0x0a, 0x93, 0xad, 0x25, 0xec, 0x4c, 0x34, 0x03, 0x7b, 0x9d, 0x3c, 0xc3, 0xcc, 0xa4, 0x78, 0x7e,
    0xb6, 0xfe, 0xda, 0xbe, 0x2b, 0x30, 0x03, 0xea, 0xc8, 0x9f, 0x77, 0x65, 0xca, 0x9d, 0x62, 0x88,
    0xe6, 0xff, 0x73, 0x4f, 0x5c, 0xd0, 0x8f, 0x3a, 0x59, 0x21, 0xcf, 0x54, 0xb2, 0x1b, 0xb3, 0x98,
    0xb5, 0x0a, 0xc0, 0xd2, 0x57, 0x7f, 0xa0, 0x74, 0x72, 0x30, 0x0a, 0x06, 0x08, 0x2a, 0x86, 0x48,
    0xce, 0x3d, 0x04, 0x03, 0x02, 0x03, 0x49, 0x00, 0x30, 0x46, 0x02, 0x21, 0x00, 0xef, 0x95, 0x3f,
    0x36, 0x7b, 0x0a, 0x4a, 0xa5, 0xf6, 0xe4, 0x3e, 0xf6, 0xdf, 0x22, 0xdf, 0x82, 0x4a, 0x8f, 0xdb,
    0xad, 0x44, 0xe2, 0x4e, 0x33, 0xd2, 0x7b, 0xdb, 0x37, 0xb5, 0x5f, 0x73, 0x39, 0x02, 0x21, 0x00,
    0x94, 0x5a, 0x15, 0x9e, 0x41, 0x7a, 0x26, 0xae, 0xcc, 0x94, 0xf3, 0xd5, 0x1d, 0x5b, 0xc5, 0xc4,
    0xc9, 0xc7, 0x82, 0xaf, 0xe5, 0xcd, 0x2f, 0x5e, 0xc6, 0x51, 0xbb, 0x37, 0x21, 0xc0, 0xee, 0xf8,
];

struct TestError(String);

impl SignerError for TestError {
    fn describe(&self) -> String {
        self.0.clone()
    }
}

/// Signs by hashing: the "signature" is the SHA-256 of what is signed, so
/// that a test can see what was handed to the signer.
struct TestSigner {
    cert: Vec<u8>,
    fail_sign: bool,
    extra_signed: bool,
    unsigned: bool,
    /// How many times the certificate was asked for.
    cert_calls: std::rc::Rc<std::cell::Cell<usize>>,
    /// From which call on the certificate given is `later_cert`.
    later_from: usize,
    later_cert: Vec<u8>,
}

impl TestSigner {
    fn new() -> Self {
        TestSigner {
            cert: CERT.to_vec(),
            fail_sign: false,
            extra_signed: false,
            unsigned: false,
            cert_calls: std::rc::Rc::new(std::cell::Cell::new(0)),
            later_from: usize::MAX,
            later_cert: Vec::new(),
        }
    }
}

fn sha256(data: &[u8]) -> Vec<u8> {
    sha2::Sha256::digest(data).to_vec()
}

fn extra_attribute() -> Attribute {
    // id-aa-commitmentType-like private arc with one UTF8String value
    Attribute {
        attr_type: Oid::new(&[1, 3, 6, 1, 4, 1, 99999, 1]).unwrap(),
        values: vec![vec![0x0c, 0x02, b'h', b'i']],
    }
}

impl Signer for TestSigner {
    type Error = TestError;

    fn get_certificate(&mut self) -> Result<Vec<u8>, TestError> {
        let n = self.cert_calls.get() + 1;
        self.cert_calls.set(n);
        if n >= self.later_from {
            Ok(self.later_cert.clone())
        } else {
            Ok(self.cert.clone())
        }
    }

    fn sign_data(&self, data: &[u8]) -> Result<Vec<u8>, TestError> {
        if self.fail_sign {
            Err(TestError("token removed".to_string()))
        } else {
            Ok(sha256(data))
        }
    }

    fn get_signature_algorithm(&self) -> Result<AlgorithmIdentifier, TestError> {
        Ok(AlgorithmIdentifier {
            algorithm: Oid::new(&[1, 2, 840, 113549, 1, 1, 11]).unwrap(),
            parameters: Some(vec![0x05, 0x00]),
        })
    }

    fn get_additional_signed_attributes(&self) -> Result<Option<Vec<Attribute>>, TestError> {
        Ok(if self.extra_signed { Some(vec![extra_attribute()]) } else { None })
    }

    fn get_additional_unsigned_attributes(&self) -> Result<Option<Vec<Attribute>>, TestError> {
        Ok(if self.unsigned { Some(vec![extra_attribute()]) } else { None })
    }
}

fn signed_attached(payload: &[u8]) -> Vec<u8> {
    let mut cades = Cades::new(payload.to_vec());
    cades.sign(TestSigner::new()).unwrap();
    cades.finalize_attached().unwrap()
}

fn decode_signed_data(bytes: &[u8]) -> (ContentInfo, SignedData) {
    let ci: ContentInfo = rasn::der::decode(bytes).unwrap();
    let sd: SignedData = rasn::der::decode(ci.content.as_bytes()).unwrap();
    (ci, sd)
}

#[test]
fn attached_roundtrip() {
    let payload = b"contenuto del documento".to_vec();
    let bytes = signed_attached(&payload);
    let read = Cades::from_attached_signature(&bytes).unwrap();
    assert_eq!(read.get_payload(), &payload[..]);
    assert_eq!(read.certificates(), &vec![CERT.to_vec()]);
    assert_eq!(read.signer_infos().len(), 1);
}

#[test]
fn refinalizing_a_read_signature_gives_the_same_octets() {
    let mut cades = Cades::new(b"twice".to_vec());
    cades.sign(TestSigner::new()).unwrap();
    let mut second = TestSigner::new();
    second.extra_signed = true;
    cades.sign(second).unwrap();
    let bytes = cades.finalize_attached().unwrap();
    let read = Cades::from_attached_signature(&bytes).unwrap();
    assert_eq!(read.finalize_attached().unwrap(), bytes);
}

#[test]
fn rasn_reads_the_attached_signature() {
    let payload = b"hello".to_vec();
    let bytes = signed_attached(&payload);
    let (ci, sd) = decode_signed_data(&bytes);
    assert_eq!(ci.content_type, rasn::types::ObjectIdentifier::new(vec![1, 2, 840, 113549, 1, 7, 2]).unwrap());
    assert_eq!(sd.version, rasn::types::Integer::from(1));
    assert_eq!(sd.digest_algorithms.len(), 1);
    assert_eq!(
        sd.encap_content_info.content_type,
        rasn::types::ObjectIdentifier::new(vec![1, 2, 840, 113549, 1, 7, 1]).unwrap()
    );
    assert_eq!(sd.encap_content_info.content.as_ref().unwrap().to_vec(), payload);
    assert_eq!(sd.certificates.as_ref().unwrap().len(), 1);
    assert!(sd.crls.is_none());
    assert_eq!(sd.signer_infos.len(), 1);
    // rasn writes the same octets back: the encoding is canonical DER
    assert_eq!(rasn::der::encode(&ci).unwrap(), bytes);
    assert_eq!(rasn::der::encode(&sd).unwrap(), ci.content.as_bytes().to_vec());
}

#[test]
fn signer_info_fields() {
    let payload = b"fields".to_vec();
    let bytes = signed_attached(&payload);
    let (_, sd) = decode_signed_data(&bytes);
    let si = sd.signer_infos.to_vec()[0].clone();
    assert_eq!(si.version, rasn::types::Integer::from(1));
    let cert: rasn_cms::Certificate = rasn::der::decode(&CERT).unwrap();
    match &si.sid {
        rasn_cms::SignerIdentifier::IssuerAndSerialNumber(ias) => {
            assert_eq!(ias.issuer, cert.tbs_certificate.issuer);
            assert_eq!(ias.serial_number, cert.tbs_certificate.serial_number);
        }
        _ => panic!("expected issuer and serial number"),
    }
    assert_eq!(
        si.digest_algorithm.algorithm,
        rasn::types::ObjectIdentifier::new(vec![2, 16, 840, 1, 101, 3, 4, 2, 1]).unwrap()
    );
    assert!(si.digest_algorithm.parameters.is_none());
    assert_eq!(
        si.signature_algorithm.algorithm,
        rasn::types::ObjectIdentifier::new(vec![1, 2, 840, 113549, 1, 1, 11]).unwrap()
    );
    assert!(si.unsigned_attrs.is_none());
    // the signature is over the DER SET OF the signed attributes
    let attrs = si.signed_attrs.clone().unwrap();
    assert_eq!(attrs.len(), 4);
    let encoded = rasn::der::encode(&attrs).unwrap();
    assert_eq!(si.signature.to_vec(), sha256(&encoded));
}

fn attribute_value(si: &rasn_cms::SignerInfo, arcs: Vec<u32>) -> Vec<u8> {
    let oid = rasn::der::encode(&rasn::types::ObjectIdentifier::new(arcs).unwrap()).unwrap();
    let attrs = si.signed_attrs.clone().unwrap();
    let found: Vec<rasn_cms::Attribute> = attrs
        .to_vec()
        .into_iter()
        .filter(|a| {
            let e = rasn::der::encode(*a).unwrap();
            let (_, start, _) = firmina::der::parse_tlv_in(&e, 0, e.len()).unwrap();
            e[start..].starts_with(&oid)
        })
        .cloned()
        .collect();
    assert_eq!(found.len(), 1);
    assert_eq!(found[0].values.len(), 1);
    found[0].values.to_vec()[0].as_bytes().to_vec()
}

#[test]
fn signed_attributes_values() {
    let payload = b"attributes".to_vec();
    let bytes = signed_attached(&payload);
    let (_, sd) = decode_signed_data(&bytes);
    let si = sd.signer_infos.to_vec()[0].clone();
    // content type: id-data
    let ct = attribute_value(&si, vec![1, 2, 840, 113549, 1, 9, 3]);
    let ct: rasn::types::ObjectIdentifier = rasn::der::decode(&ct).unwrap();
    assert_eq!(ct, rasn::types::ObjectIdentifier::new(vec![1, 2, 840, 113549, 1, 7, 1]).unwrap());
    // message digest: SHA-256 of the payload
    let md = attribute_value(&si, vec![1, 2, 840, 113549, 1, 9, 4]);
    let md: rasn::types::OctetString = rasn::der::decode(&md).unwrap();
    assert_eq!(md.to_vec(), sha256(&payload));
    // signing time: a UTCTime
    let st = attribute_value(&si, vec![1, 2, 840, 113549, 1, 9, 5]);
    let _: rasn::types::UtcTime = rasn::der::decode(&st).unwrap();
    // signing certificate v2: hash and issuer serial of the certificate
    let sc = attribute_value(&si, vec![1, 2, 840, 113549, 1, 9, 16, 2, 47]);
    let sc: rasn_smime::ess::SigningCertificateV2 = rasn::der::decode(&sc).unwrap();
    assert_eq!(sc.certs.len(), 1);
    let id = &sc.certs[0];
    assert_eq!(id.cert_hash.to_vec(), sha256(&CERT));
    let cert: rasn_cms::Certificate = rasn::der::decode(&CERT).unwrap();
    let is = id.issuer_serial.as_ref().unwrap();
    assert_eq!(is.serial_number, cert.tbs_certificate.serial_number);
    assert_eq!(is.issuer, vec![rasn_pkix::GeneralName::DirectoryName(cert.tbs_certificate.issuer.clone())]);
    assert!(sc.policies.is_none());
    assert_eq!(rasn::der::encode(&sc).unwrap(), attribute_value(&si, vec![1, 2, 840, 113549, 1, 9, 16, 2, 47]));
}

#[test]
fn additional_and_unsigned_attributes() {
    let mut cades = Cades::new(b"more".to_vec());
    let mut signer = TestSigner::new();
    signer.extra_signed = true;
    signer.unsigned = true;
    cades.sign(signer).unwrap();
    let bytes = cades.finalize_attached().unwrap();
    let (_, sd) = decode_signed_data(&bytes);
    let si = sd.signer_infos.to_vec()[0].clone();
    assert_eq!(si.signed_attrs.as_ref().unwrap().len(), 5);
    assert_eq!(si.unsigned_attrs.as_ref().unwrap().len(), 1);
    assert_eq!(attribute_value(&si, vec![1, 3, 6, 1, 4, 1, 99999, 1]), vec![0x0c, 0x02, b'h', b'i']);
    assert_eq!(si.signature_algorithm.parameters.as_ref().unwrap().as_bytes(), &[0x05, 0x00]);
}

#[test]
fn detached_signature_leaves_the_content_out() {
    let mut cades = Cades::new(b"secret".to_vec());
    cades.sign(TestSigner::new()).unwrap();
    let bytes = cades.finalize_detached().unwrap();
    let (_, sd) = decode_signed_data(&bytes);
    assert!(sd.encap_content_info.content.is_none());
    assert!(matches!(
        Cades::from_attached_signature(&bytes),
        Err(CadesError::EncapsulatedContentMissing)
    ));
}

#[test]
fn no_signer_means_no_certificates() {
    let cades = Cades::new(b"bare".to_vec());
    let bytes = cades.finalize_attached().unwrap();
    let (_, sd) = decode_signed_data(&bytes);
    assert!(sd.certificates.is_none());
    assert_eq!(sd.signer_infos.len(), 0);
    assert_eq!(sd.digest_algorithms.len(), 0);
    let read = Cades::from_attached_signature(&bytes).unwrap();
    assert_eq!(read.get_payload(), b"bare");
    assert!(read.certificates().is_empty());
}

#[test]
fn two_signers_share_one_digest_algorithm() {
    let mut cades = Cades::new(b"two".to_vec());
    cades.sign(TestSigner::new()).unwrap();
    cades.sign(TestSigner::new()).unwrap();
    assert_eq!(cades.certificates().len(), 2);
    assert_eq!(cades.signer_infos().len(), 2);
    let bytes = cades.finalize_attached().unwrap();
    let (_, sd) = decode_signed_data(&bytes);
    assert_eq!(sd.digest_algorithms.len(), 1);
    assert_eq!(sd.signer_infos.len(), 2);
    assert_eq!(sd.certificates.as_ref().unwrap().len(), 2);
}

#[test]
fn signer_failure_is_reported() {
    let mut cades = Cades::new(b"x".to_vec());
    let mut signer = TestSigner::new();
    signer.fail_sign = true;
    assert_eq!(cades.sign(signer), Err(CadesError::Signer("token removed".to_string())));
    // the certificate was read before the failure and stays
    assert_eq!(cades.certificates().len(), 1);
    assert_eq!(cades.signer_infos().len(), 0);
}

#[test]
fn unreadable_certificate_is_refused() {
    let mut cades = Cades::new(b"x".to_vec());
    let mut signer = TestSigner::new();
    signer.cert = vec![0x30, 0x03, 0x02, 0x01, 0x01];
    assert_eq!(cades.sign(signer), Err(CadesError::Decode));
    assert!(cades.certificates().is_empty());
    assert!(cades.signer_infos().is_empty());
}

#[test]
fn garbage_is_a_decode_error() {
    assert!(matches!(Cades::from_attached_signature(&[]), Err(CadesError::Decode)));
    assert!(matches!(Cades::from_attached_signature(&[0x30, 0x02, 0x05, 0x00]), Err(CadesError::Decode)));
    let mut bytes = signed_attached(b"trailing");
    bytes.push(0);
    assert!(matches!(Cades::from_attached_signature(&bytes), Err(CadesError::Decode)));
}

#[test]
fn other_content_type_is_unsupported() {
    let ci = ContentInfo {
        content_type: rasn::types::ObjectIdentifier::new(vec![1, 2, 840, 113549, 1, 7, 3]).unwrap(),
        content: rasn::types::Any::new(vec![0x04, 0x00]),
    };
    let bytes = rasn::der::encode(&ci).unwrap();
    match Cades::from_attached_signature(&bytes) {
        Err(CadesError::UnsupportedContentType(oid)) => {
            assert_eq!(oid, vec![0x2a, 0x86, 0x48, 0x86, 0xf7, 0x0d, 0x01, 0x07, 0x03])
        }
        _ => panic!("expected an unsupported content type"),
    }
}

#[test]
fn other_encapsulated_content_type_is_unsupported() {
    let bytes = signed_attached(b"abc");
    let (mut ci, mut sd) = decode_signed_data(&bytes);
    sd.encap_content_info.content_type =
        rasn::types::ObjectIdentifier::new(vec![1, 2, 840, 113549, 1, 9, 16, 1, 4]).unwrap();
    ci.content = rasn::types::Any::new(rasn::der::encode(&sd).unwrap());
    let bytes = rasn::der::encode(&ci).unwrap();
    assert!(matches!(
        Cades::from_attached_signature(&bytes),
        Err(CadesError::UnsupportedContentType(_))
    ));
}

#[test]
fn encap_content_info_of_encap_content() {
    let attached = build_encap_content_info(&EncapContent { detach: false, data: vec![1, 2] });
    let detached = build_encap_content_info(&EncapContent { detach: true, data: vec![1, 2] });
    let a: rasn_cms::EncapsulatedContentInfo = rasn::der::decode(&attached).unwrap();
    let d: rasn_cms::EncapsulatedContentInfo = rasn::der::decode(&detached).unwrap();
    assert_eq!(a.content.unwrap().to_vec(), vec![1, 2]);
    assert!(d.content.is_none());
    assert_eq!(
        attached,
        vec![0x30, 0x11, 0x06, 0x09, 0x2a, 0x86, 0x48, 0x86, 0xf7, 0x0d, 0x01, 0x07, 0x01, 0xa0, 0x04, 0x04, 0x02, 1, 2]
    );
}

#[test]
fn build_content_info_signs_once() {
    let attached = build_content_info(&EncapContent { detach: false, data: b"doc".to_vec() }, TestSigner::new()).unwrap();
    let read = Cades::from_attached_signature(&attached).unwrap();
    assert_eq!(read.get_payload(), b"doc");
    assert_eq!(read.signer_infos().len(), 1);
    let detached = build_content_info(&EncapContent { detach: true, data: b"doc".to_vec() }, TestSigner::new()).unwrap();
    let (_, sd) = decode_signed_data(&detached);
    assert!(sd.encap_content_info.content.is_none());
    assert_eq!(sd.signer_infos.len(), 1);
}

#[test]
fn order_of_sets_in_the_input_does_not_matter() {
    let mut cades = Cades::new(b"order".to_vec());
    cades.sign(TestSigner::new()).unwrap();
    let mut other = TestSigner::new();
    other.extra_signed = true;
    cades.sign(other).unwrap();
    let bytes = cades.finalize_attached().unwrap();
    let read = Cades::from_attached_signature(&bytes).unwrap();
    // Write the SET OF components in reverse DER order by hand.
    let mut certs = Vec::new();
    for c in read.certificates().iter().rev() {
        certs.extend_from_slice(c);
    }
    let mut sis = Vec::new();
    for s in read.signer_infos().iter().rev() {
        sis.extend_from_slice(s);
    }
    assert_ne!(read.signer_infos()[0], read.signer_infos()[1]);
    let sha256_alg = encode_tlv(0x30, &encode_tlv(0x06, firmina::oid::id_sha256().as_bytes()));
    let mut content = vec![0x02, 0x01, 0x01];
    content.extend(encode_tlv(0x31, &sha256_alg));
    content.extend(build_encap_content_info(&EncapContent { detach: false, data: b"order".to_vec() }));
    content.extend(encode_tlv(0xA0, &certs));
    content.extend(encode_tlv(0x31, &sis));
    let signed_data = encode_tlv(0x30, &content);
    let mut ci = encode_tlv(0x06, firmina::oid::id_signed_data().as_bytes());
    ci.extend(encode_tlv(0xA0, &signed_data));
    let unsorted = encode_tlv(0x30, &ci);
    assert_ne!(unsorted, bytes);
    let reread = Cades::from_attached_signature(&unsorted).unwrap();
    assert_eq!(reread.finalize_attached().unwrap(), bytes);
}

#[test]
fn signed_data_version_follows_the_signer_infos_and_certificates() {
    // a SignerInfo of version 3 (identified by a subject key identifier) gives version 3
    let bytes = signed_attached(b"versions");
    let (mut ci, mut sd) = decode_signed_data(&bytes);
    let mut si = sd.signer_infos.to_vec()[0].clone();
    si.version = rasn::types::Integer::from(3);
    si.sid = rasn_cms::SignerIdentifier::SubjectKeyIdentifier(rasn::types::OctetString::from(vec![1, 2, 3, 4]));
    sd.signer_infos = vec![si].into();
    ci.content = rasn::types::Any::new(rasn::der::encode(&sd).unwrap());
    let v3 = rasn::der::encode(&ci).unwrap();
    let read = Cades::from_attached_signature(&v3).unwrap();
    let (_, out) = decode_signed_data(&read.finalize_attached().unwrap());
    assert_eq!(out.version, rasn::types::Integer::from(3));

    // an `other` certificate gives version 5
    let (mut ci, mut sd) = decode_signed_data(&bytes);
    let cert: rasn_cms::Certificate = rasn::der::decode(&CERT).unwrap();
    let other = rasn_cms::OtherCertificateFormat {
        other_cert_format: rasn::types::ObjectIdentifier::new(vec![1, 3, 6, 1, 4, 1, 99999, 2]).unwrap(),
        other_cert: rasn::types::Any::new(vec![0x05, 0x00]),
    };
    sd.certificates = Some(
        vec![
            rasn_cms::CertificateChoices::Certificate(Box::new(cert)),
            rasn_cms::CertificateChoices::Other(other),
        ]
        .into(),
    );
    ci.content = rasn::types::Any::new(rasn::der::encode(&sd).unwrap());
    let v5 = rasn::der::encode(&ci).unwrap();
    let read = Cades::from_attached_signature(&v5).unwrap();
    assert_eq!(read.certificates().len(), 2);
    let (_, out) = decode_signed_data(&read.finalize_attached().unwrap());
    assert_eq!(out.version, rasn::types::Integer::from(5));
}

#[test]
fn signed_data_that_rasn_refuses_is_a_decode_error() {
    // a certificates field that holds an empty SEQUENCE in place of a certificate
    let sha256_alg = encode_tlv(0x30, &encode_tlv(0x06, firmina::oid::id_sha256().as_bytes()));
    let mut content = vec![0x02, 0x01, 0x01];
    content.extend(encode_tlv(0x31, &sha256_alg));
    content.extend(build_encap_content_info(&EncapContent { detach: false, data: b"x".to_vec() }));
    content.extend(encode_tlv(0xA0, &[0x30, 0x00]));
    content.extend(encode_tlv(0x31, &[]));
    let signed_data = encode_tlv(0x30, &content);
    let mut ci = encode_tlv(0x06, firmina::oid::id_signed_data().as_bytes());
    ci.extend(encode_tlv(0xA0, &signed_data));
    let bytes = encode_tlv(0x30, &ci);
    assert_eq!(Cades::from_attached_signature(&bytes).err(), Some(CadesError::Decode));
}

#[test]
fn certificate_that_rasn_refuses_is_a_decode_error() {
    // serial number, signature algorithm and issuer are there, the rest is not
    let mut cades = Cades::new(b"x".to_vec());
    let mut signer = TestSigner::new();
    signer.cert = vec![0x30, 0x09, 0x30, 0x07, 0x02, 0x01, 0x01, 0x30, 0x00, 0x30, 0x00];
    assert_eq!(cades.sign(signer), Err(CadesError::Decode));
    assert!(cades.certificates().is_empty());
    assert!(cades.signer_infos().is_empty());
}

#[test]
fn the_signer_is_asked_for_its_certificate_three_times() {
    let mut cades = Cades::new(b"calls".to_vec());
    let signer = TestSigner::new();
    let calls = signer.cert_calls.clone();
    cades.sign(signer).unwrap();
    assert_eq!(calls.get(), 3);
}

#[test]
fn a_later_certificate_that_does_not_decode_fails_after_the_first_is_kept() {
    // the signing-certificate attribute asks for the certificate a second time
    let mut cades = Cades::new(b"x".to_vec());
    let mut signer = TestSigner::new();
    signer.later_from = 2;
    signer.later_cert = vec![0x30, 0x03, 0x02, 0x01, 0x01];
    let calls = signer.cert_calls.clone();
    assert_eq!(cades.sign(signer), Err(CadesError::Decode));
    assert_eq!(calls.get(), 2);
    assert_eq!(cades.certificates(), &vec![CERT.to_vec()]);
    assert!(cades.signer_infos().is_empty());
    // the identifying certificate is asked for the third time
    let mut cades = Cades::new(b"x".to_vec());
    let mut signer = TestSigner::new();
    signer.later_from = 3;
    signer.later_cert = vec![0x30, 0x03, 0x02, 0x01, 0x01];
    assert_eq!(cades.sign(signer), Err(CadesError::Decode));
    assert_eq!(cades.certificates().len(), 1);
    assert!(cades.signer_infos().is_empty());
}

#[test]
fn sha256_with_rsa_encryption_identifier() {
    assert_eq!(
        AlgorithmIdentifier::sha256_with_rsa_encryption().encode(),
        vec![0x30, 0x0b, 0x06, 0x09, 0x2a, 0x86, 0x48, 0x86, 0xf7, 0x0d, 0x01, 0x01, 0x0b]
    );
}
