//! What the encodings are for: the octets a signer signs, the SignedData
//! version, the revocation information a reader passes over, and the order of
//! SET OF components.
use vstd::prelude::*;
use vstd::relations::sorted_by;
use crate::cms::{
    certificates_der, encap_content_info_der, signed_attributes_to_sign, signed_data_version,
    signer_info_der, small_int_der, unsigned_attributes_der, sha256_algorithm_der, int_one_der,
};
use crate::der::{all_elements, length_limit, lemma_parse_tlv, parse_elements, parse_tlv, tlv};
use crate::oid::{id_data_arcs, oid_content};
use crate::order::{
    der_sorted, lemma_der_sorted_char, lemma_der_sorted_ensures, lemma_der_sorted_permutation,
    lex_le, lex_order, set_of_content,
};
use crate::read::{
    all_signer_infos, read_after_digests, read_certificates, read_signed_data, read_signer_infos,
    skip_crls,
};

verus! {

broadcast use vstd::seq_lib::group_to_multiset_ensures;

// ---------------------------------------------------------------- signed attributes

/// The octets a signer signs do not depend on the order in which the signed
/// attributes were given.
pub proof fn lemma_signed_octets_order_free(a: Seq<Seq<u8>>, b: Seq<Seq<u8>>)
    requires
        a.to_multiset() == b.to_multiset(),
    ensures
        signed_attributes_to_sign(a) == signed_attributes_to_sign(b),
{
    lemma_der_sorted_permutation(a, b);
}

/// Signed attributes given in DER order are signed as they stand: the tag of a
/// SET OF, the length, then the attributes one after the other.
pub proof fn lemma_signed_octets_of_sorted(a: Seq<Seq<u8>>)
    requires
        sorted_by(a, lex_order()),
    ensures
        signed_attributes_to_sign(a) == tlv(0x31, a.flatten()),
{
    lemma_der_sorted_char(a, a);
}

/// The contents of the signedAttrs `[0]` field of a SignerInfo ::= SEQUENCE
/// { version, sid, digestAlgorithm, signedAttrs [0] IMPLICIT .., .. }.
pub open spec fn signer_info_signed_attrs(si: Seq<u8>) -> Option<Seq<u8>> {
    match parse_tlv(si) {
        Some((t0, c, r0)) => if t0 != 0x30 || r0.len() != 0 {
            None
        } else {
            match parse_tlv(c) {
                Some((_, _, r1)) => match parse_tlv(r1) {
                    Some((_, _, r2)) => match parse_tlv(r2) {
                        Some((_, _, r3)) => match parse_tlv(r3) {
                            Some((ta, ac, _)) => if ta == 0xA0 {
                                Some(ac)
                            } else {
                                None
                            },
                            None => None,
                        },
                        None => None,
                    },
                    None => None,
                },
                None => None,
            }
        },
        None => None,
    }
}

/// The octets a signer signs are the tag of a SET OF followed by the length and
/// contents of the signedAttrs field written in its SignerInfo, so that the
/// signature verifies against the SignerInfo.
#[verifier::spinoff_prover]
#[verifier::rlimit(40)]
pub proof fn lemma_signed_octets_match_signer_info(
    issuer: Seq<u8>,
    serial: Seq<u8>,
    attrs: Seq<Seq<u8>>,
    alg: Seq<u8>,
    signature: Seq<u8>,
    unsigned: Option<Seq<Seq<u8>>>,
)
    requires
        signer_info_der(issuer, serial, attrs, alg, signature, unsigned).len() < length_limit(),
    ensures
        signer_info_signed_attrs(signer_info_der(issuer, serial, attrs, alg, signature, unsigned))
            matches Some(c) && signed_attributes_to_sign(attrs) == tlv(0x31, c),
{
    let sid = tlv(0x30, issuer + serial);
    let sha = sha256_algorithm_der();
    let sa = tlv(0xA0, set_of_content(attrs));
    let tail = alg + tlv(0x04, signature) + unsigned_attributes_der(unsigned);
    let content = int_one_der() + sid + sha + sa + tail;
    let si = signer_info_der(issuer, serial, attrs, alg, signature, unsigned);
    assert(si =~= tlv(0x30, content));
    lemma_parse_tlv(0x30, content, Seq::empty());
    assert(tlv(0x30, content) + Seq::<u8>::empty() =~= tlv(0x30, content));
    assert(content =~= int_one_der() + (sid + (sha + (sa + tail))));
    lemma_parse_tlv(0x02, seq![1u8], sid + (sha + (sa + tail)));
    lemma_parse_tlv(0x30, issuer + serial, sha + (sa + tail));
    lemma_parse_tlv(0x30, crate::cms::oid_der(oid_content(crate::oid::id_sha256_arcs())), sa + tail);
    lemma_parse_tlv(0xA0, set_of_content(attrs), tail);
}

// ---------------------------------------------------------------- version

/// Whether the SignerInfo `si` is of version 1: its first field is the INTEGER 1.
pub open spec fn signer_info_version_1(si: Seq<u8>) -> bool {
    &&& parse_tlv(si) matches Some((_, c, _))
    &&& parse_tlv(c) matches Some((t, v, _))
    &&& t == 0x02
    &&& v == seq![1u8]
}

/// A SignedData whose certificates are all X.509 certificates (SEQUENCEs) and
/// whose SignerInfos are all of version 1 is of version 1, however many there are.
pub proof fn lemma_version_of_plain_signatures(certs: Seq<Seq<u8>>, sis: Seq<Seq<u8>>)
    requires
        forall|i: int| 0 <= i < certs.len() ==> (#[trigger] certs[i]).len() > 0 && certs[i][0] == 0x30,
        forall|j: int| 0 <= j < sis.len() ==> signer_info_version_1(#[trigger] sis[j]),
    ensures
        signed_data_version(certs, sis) == 1,
{
    assert forall|tag: u8| tag != 0x30 implies !crate::cms::has_choice(certs, tag) by {
        if crate::cms::has_choice(certs, tag) {
            let i = choose|i: int|
                0 <= i < certs.len() && certs[i].len() > 0 && #[trigger] certs[i][0] == tag;
            assert(certs[i][0] == 0x30);
        }
    }
    assert(!crate::cms::has_version_3(sis)) by {
        if crate::cms::has_version_3(sis) {
            let j = choose|j: int| 0 <= j < sis.len() && #[trigger] crate::cms::signer_info_version_3(sis[j]);
            assert(signer_info_version_1(sis[j]));
            assert(seq![1u8][0] != seq![3u8][0]);
        }
    }
}

/// The SignerInfos written here are of version 1.
pub proof fn lemma_signer_info_is_version_1(
    issuer: Seq<u8>,
    serial: Seq<u8>,
    attrs: Seq<Seq<u8>>,
    alg: Seq<u8>,
    signature: Seq<u8>,
    unsigned: Option<Seq<Seq<u8>>>,
)
    requires
        signer_info_der(issuer, serial, attrs, alg, signature, unsigned).len() < length_limit(),
    ensures
        signer_info_version_1(signer_info_der(issuer, serial, attrs, alg, signature, unsigned)),
{
    let rest = tlv(0x30, issuer + serial) + sha256_algorithm_der() + tlv(0xA0, set_of_content(attrs))
        + alg + tlv(0x04, signature) + unsigned_attributes_der(unsigned);
    let content = int_one_der() + rest;
    assert(signer_info_der(issuer, serial, attrs, alg, signature, unsigned) =~= tlv(0x30, content));
    lemma_parse_tlv(0x30, content, Seq::empty());
    assert(tlv(0x30, content) + Seq::<u8>::empty() =~= tlv(0x30, content));
    lemma_parse_tlv(0x02, seq![1u8], rest);
}

// ---------------------------------------------------------------- revocation information

/// A SignedData with a crls `[1]` field between its certificates and its
/// SignerInfos reads as the same SignedData without it: the same content type,
/// content, certificates and SignerInfos.
#[verifier::spinoff_prover]
#[verifier::rlimit(40)]
pub proof fn lemma_crls_are_passed_over(
    version: u8,
    digests: Seq<Seq<u8>>,
    content: Option<Seq<u8>>,
    certs: Seq<Seq<u8>>,
    crls: Seq<u8>,
    sis: Seq<Seq<u8>>,
)
    requires
        version < 128,
        all_elements(digests),
        all_elements(certs),
        all_signer_infos(sis),
        tlv(
            0x30,
            small_int_der(version) + tlv(0x31, set_of_content(digests)) + encap_content_info_der(
                content,
            ) + certificates_der(certs) + tlv(0xA1, crls) + tlv(0x31, set_of_content(sis)),
        ).len() < length_limit(),
        tlv(
            0x30,
            small_int_der(version) + tlv(0x31, set_of_content(digests)) + encap_content_info_der(
                content,
            ) + certificates_der(certs) + tlv(0x31, set_of_content(sis)),
        ).len() < length_limit(),
    ensures
        read_signed_data(
            tlv(
                0x30,
                small_int_der(version) + tlv(0x31, set_of_content(digests)) + encap_content_info_der(
                    content,
                ) + certificates_der(certs) + tlv(0xA1, crls) + tlv(0x31, set_of_content(sis)),
            ),
        ) == read_signed_data(
            tlv(
                0x30,
                small_int_der(version) + tlv(0x31, set_of_content(digests)) + encap_content_info_der(
                    content,
                ) + certificates_der(certs) + tlv(0x31, set_of_content(sis)),
            ),
        ),
        read_signed_data(
            tlv(
                0x30,
                small_int_der(version) + tlv(0x31, set_of_content(digests)) + encap_content_info_der(
                    content,
                ) + certificates_der(certs) + tlv(0xA1, crls) + tlv(0x31, set_of_content(sis)),
            ),
        ) == Some((oid_content(id_data_arcs()), content, der_sorted(certs), der_sorted(sis))),
{
    lemma_signed_data_with_crls(version, digests, content, certs, crls, sis);
    lemma_signed_data_without_crls(version, digests, content, certs, sis);
}

#[verifier::spinoff_prover]
proof fn lemma_signed_data_with_crls(
    version: u8,
    digests: Seq<Seq<u8>>,
    content: Option<Seq<u8>>,
    certs: Seq<Seq<u8>>,
    crls: Seq<u8>,
    sis: Seq<Seq<u8>>,
)
    requires
        version < 128,
        all_elements(digests),
        all_elements(certs),
        all_signer_infos(sis),
        tlv(
            0x30,
            small_int_der(version) + tlv(0x31, set_of_content(digests)) + encap_content_info_der(
                content,
            ) + certificates_der(certs) + tlv(0xA1, crls) + tlv(0x31, set_of_content(sis)),
        ).len() < length_limit(),
    ensures
        read_signed_data(
            tlv(
                0x30,
                small_int_der(version) + tlv(0x31, set_of_content(digests)) + encap_content_info_der(
                    content,
                ) + certificates_der(certs) + tlv(0xA1, crls) + tlv(0x31, set_of_content(sis)),
            ),
        ) == Some((oid_content(id_data_arcs()), content, der_sorted(certs), der_sorted(sis))),
{
    let b = encap_content_info_der(content) + certificates_der(certs) + tlv(0xA1, crls) + tlv(
        0x31,
        set_of_content(sis),
    );
    let head = small_int_der(version) + tlv(0x31, set_of_content(digests));
    assert(head + encap_content_info_der(content) + certificates_der(certs) + tlv(0xA1, crls) + tlv(
        0x31,
        set_of_content(sis),
    ) =~= head + b);
    lemma_read_signed_data_is_after_digests(version, digests, b);
    lemma_after_digests_with_crls(content, certs, crls, sis);
}

#[verifier::spinoff_prover]
proof fn lemma_signed_data_without_crls(
    version: u8,
    digests: Seq<Seq<u8>>,
    content: Option<Seq<u8>>,
    certs: Seq<Seq<u8>>,
    sis: Seq<Seq<u8>>,
)
    requires
        version < 128,
        all_elements(digests),
        all_elements(certs),
        all_signer_infos(sis),
        tlv(
            0x30,
            small_int_der(version) + tlv(0x31, set_of_content(digests)) + encap_content_info_der(
                content,
            ) + certificates_der(certs) + tlv(0x31, set_of_content(sis)),
        ).len() < length_limit(),
    ensures
        read_signed_data(
            tlv(
                0x30,
                small_int_der(version) + tlv(0x31, set_of_content(digests)) + encap_content_info_der(
                    content,
                ) + certificates_der(certs) + tlv(0x31, set_of_content(sis)),
            ),
        ) == Some((oid_content(id_data_arcs()), content, der_sorted(certs), der_sorted(sis))),
{
    let b = encap_content_info_der(content) + certificates_der(certs) + tlv(0x31, set_of_content(sis));
    let head = small_int_der(version) + tlv(0x31, set_of_content(digests));
    assert(head + encap_content_info_der(content) + certificates_der(certs) + tlv(
        0x31,
        set_of_content(sis),
    ) =~= head + b);
    lemma_read_signed_data_is_after_digests(version, digests, b);
    lemma_after_digests_without_crls(content, certs, sis);
}

/// A SignedData reads as the fields after its version and digestAlgorithms.
#[verifier::spinoff_prover]
#[verifier::rlimit(40)]
proof fn lemma_read_signed_data_is_after_digests(version: u8, digests: Seq<Seq<u8>>, b: Seq<u8>)
    requires
        version < 128,
        all_elements(digests),
        tlv(0x30, small_int_der(version) + tlv(0x31, set_of_content(digests)) + b).len()
            < length_limit(),
    ensures
        read_signed_data(tlv(0x30, small_int_der(version) + tlv(0x31, set_of_content(digests)) + b))
            == read_after_digests(b),
{
    let a = tlv(0x31, set_of_content(digests)) + b;
    let c = small_int_der(version) + a;
    assert(small_int_der(version) + tlv(0x31, set_of_content(digests)) + b =~= c);
    lemma_parse_tlv(0x30, c, Seq::empty());
    assert(tlv(0x30, c) + Seq::<u8>::empty() =~= tlv(0x30, c));
    lemma_parse_tlv(0x02, seq![version], a);
    lemma_parse_tlv(0x31, set_of_content(digests), b);
    lemma_parse_set_of(digests);
}

/// The contents of a SET OF complete values parse back as those values, in DER order.
proof fn lemma_parse_set_of(xs: Seq<Seq<u8>>)
    requires
        all_elements(xs),
    ensures
        parse_elements(set_of_content(xs)) == Some(der_sorted(xs)),
{
    lemma_der_sorted_ensures(xs);
    assert(all_elements(der_sorted(xs))) by {
        assert forall|i: int| 0 <= i < der_sorted(xs).len() implies crate::der::is_element(
            #[trigger] der_sorted(xs)[i],
        ) by {
            let y = der_sorted(xs)[i];
            assert(der_sorted(xs).contains(y));
            assert(der_sorted(xs).to_multiset().count(y) > 0);
            assert(xs.to_multiset().count(y) > 0);
            assert(xs.contains(y));
        }
    }
    crate::der::lemma_parse_elements_flatten(der_sorted(xs));
}

/// SignerInfos that name their digest algorithm parse back from their SET OF.
proof fn lemma_signer_infos_read(sis: Seq<Seq<u8>>)
    requires
        all_signer_infos(sis),
        tlv(0x31, set_of_content(sis)).len() < length_limit(),
    ensures
        read_signer_infos(tlv(0x31, set_of_content(sis))) == Some(der_sorted(sis)),
{
    assert(all_elements(sis)) by {
        assert forall|i: int| 0 <= i < sis.len() implies crate::der::is_element(#[trigger] sis[i]) by {
            assert(crate::read::signer_info_digest_algorithm(sis[i]) is Some);
        }
    }
    lemma_parse_set_of(sis);
    lemma_parse_tlv(0x31, set_of_content(sis), Seq::empty());
    assert(tlv(0x31, set_of_content(sis)) + Seq::<u8>::empty() =~= tlv(0x31, set_of_content(sis)));
    lemma_der_sorted_ensures(sis);
    assert(all_signer_infos(der_sorted(sis))) by {
        assert forall|i: int| 0 <= i < der_sorted(sis).len() implies (
        #[trigger] crate::read::signer_info_digest_algorithm(der_sorted(sis)[i])) is Some by {
            let y = der_sorted(sis)[i];
            assert(der_sorted(sis).contains(y));
            assert(der_sorted(sis).to_multiset().count(y) > 0);
            assert(sis.to_multiset().count(y) > 0);
            assert(sis.contains(y));
            let k = choose|k: int| 0 <= k < sis.len() && sis[k] == y;
        }
    }
}

/// The certificates written before a field `rest` read back in DER order, with `rest` after them.
proof fn lemma_certificates_read(certs: Seq<Seq<u8>>, rest: Seq<u8>)
    requires
        all_elements(certs),
        (certificates_der(certs) + rest).len() < length_limit(),
        rest.len() > 0 && rest[0] != 0xA0,
    ensures
        read_certificates(certificates_der(certs) + rest) == Some((der_sorted(certs), rest)),
{
    if certs.len() == 0 {
        assert(certificates_der(certs) + rest =~= rest);
        lemma_der_sorted_ensures(certs);
        assert(der_sorted(certs) =~= Seq::<Seq<u8>>::empty());
    } else {
        lemma_parse_tlv(0xA0, set_of_content(certs), rest);
        lemma_parse_set_of(certs);
    }
}

proof fn lemma_after_digests_with_crls(
    content: Option<Seq<u8>>,
    certs: Seq<Seq<u8>>,
    crls: Seq<u8>,
    sis: Seq<Seq<u8>>,
)
    requires
        all_elements(certs),
        all_signer_infos(sis),
        (encap_content_info_der(content) + certificates_der(certs) + tlv(0xA1, crls) + tlv(
            0x31,
            set_of_content(sis),
        )).len() < length_limit(),
    ensures
        read_after_digests(
            encap_content_info_der(content) + certificates_der(certs) + tlv(0xA1, crls) + tlv(
                0x31,
                set_of_content(sis),
            ),
        ) == Some((oid_content(id_data_arcs()), content, der_sorted(certs), der_sorted(sis))),
{
    let data = oid_content(id_data_arcs());
    let econtent = match content {
        Some(c) => tlv(0xA0, tlv(0x04, c)),
        None => Seq::empty(),
    };
    let ec = crate::cms::oid_der(data) + econtent;
    let sis_der = tlv(0x31, set_of_content(sis));
    let crl = tlv(0xA1, crls);
    let tail = crl + sis_der;
    let c = certificates_der(certs) + tail;
    let b = encap_content_info_der(content) + certificates_der(certs) + crl + sis_der;
    crate::laws::lemma_encap_roundtrip(content);
    assert(b =~= tlv(0x30, ec) + c);
    lemma_parse_tlv(0x30, ec, c);
    assert(tail[0] == 0xA1);
    lemma_certificates_read(certs, tail);
    lemma_parse_tlv(0xA1, crls, sis_der);
    assert(skip_crls(tail) == sis_der);
    lemma_signer_infos_read(sis);
}

proof fn lemma_after_digests_without_crls(
    content: Option<Seq<u8>>,
    certs: Seq<Seq<u8>>,
    sis: Seq<Seq<u8>>,
)
    requires
        all_elements(certs),
        all_signer_infos(sis),
        (encap_content_info_der(content) + certificates_der(certs) + tlv(
            0x31,
            set_of_content(sis),
        )).len() < length_limit(),
    ensures
        read_after_digests(
            encap_content_info_der(content) + certificates_der(certs) + tlv(
                0x31,
                set_of_content(sis),
            ),
        ) == Some((oid_content(id_data_arcs()), content, der_sorted(certs), der_sorted(sis))),
{
    crate::laws::lemma_after_digests_roundtrip(content, certs, sis);
}

// ---------------------------------------------------------------- order

/// Two octet strings that agree before position `i` and differ there are
/// ordered by their octets at `i`, compared as unsigned numbers.
pub proof fn lemma_lex_first_difference(a: Seq<u8>, b: Seq<u8>, i: int)
    requires
        0 <= i < a.len(),
        i < b.len(),
        a.subrange(0, i) == b.subrange(0, i),
        a[i] != b[i],
    ensures
        lex_le(a, b) == (a[i] < b[i]),
    decreases i,
{
    if i > 0 {
        assert(a[0] == a.subrange(0, i)[0]);
        assert(b[0] == b.subrange(0, i)[0]);
        assert(a.drop_first().subrange(0, i - 1) =~= a.subrange(0, i).drop_first());
        assert(b.drop_first().subrange(0, i - 1) =~= b.subrange(0, i).drop_first());
        lemma_lex_first_difference(a.drop_first(), b.drop_first(), i - 1);
    }
}

/// An octet string comes before every string that it is a prefix of.
pub proof fn lemma_lex_prefix(a: Seq<u8>, b: Seq<u8>)
    requires
        a.len() <= b.len(),
        a == b.subrange(0, a.len() as int),
    ensures
        lex_le(a, b),
    decreases a.len(),
{
    if a.len() > 0 {
        assert(a[0] == b[0]);
        assert(a.drop_first() =~= b.drop_first().subrange(0, a.len() - 1));
        lemma_lex_prefix(a.drop_first(), b.drop_first());
    }
}

/// Single octets are ordered as unsigned numbers.
pub proof fn lemma_lex_single_octets(x: u8, y: u8)
    ensures
        lex_le(seq![x], seq![y]) == (x <= y),
{
    if x != y {
        assert(seq![x].subrange(0, 0) =~= seq![y].subrange(0, 0));
        lemma_lex_first_difference(seq![x], seq![y], 0);
    } else {
        assert(seq![y].subrange(0, 1) =~= seq![x]);
        lemma_lex_prefix(seq![x], seq![y]);
    }
}

} // verus!
