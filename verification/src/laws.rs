//! What holds of signatures across functions: reading back what was written.
use vstd::prelude::*;
use crate::cades::{
    attributes_or_none, cades_der, cades_signed_data, cades_wf, dedup, digest_algorithms_of,
    lemma_signer_info_digest_algorithm, signed_by, signer_digest_algorithms, CadesView,
};
use crate::cms::{
    certificates_der, content_info_der, encap_content_info_der, has_choice, has_version_3, oid_der,
    sha256_algorithm_der, signed_attributes, signed_data_der, signed_data_version, signer_info_der,
    signer_info_version_3, signing_certificate_v2_attribute_der, small_int_der,
};
use crate::read::certificate_issuer_serial;
use crate::signer::Signer;
use crate::der::{
    all_elements, is_element, length_limit, lemma_parse_elements_flatten, lemma_parse_tlv,
    lemma_parse_tlv_canonical, lemma_tlv_is_element, parse_tlv, tlv,
};
use crate::oid::{id_data_arcs, id_signed_data_arcs, oid_content};
use crate::order::{der_sorted, lemma_der_sorted_char, lemma_der_sorted_ensures, set_of_content};
use crate::read::{
    accepted_attached, all_signer_infos, is_content_info_der, is_signed_data_der,
    read_after_digests, read_attached, read_certificates, read_encap_fields,
    read_signed_data, read_signer_infos, signer_info_digest_algorithm, skip_crls, AttachedRead,
};

verus! {

broadcast use vstd::seq_lib::group_to_multiset_ensures;

/// Every value of the DER order of `xs` is a value of `xs`.
pub proof fn lemma_der_sorted_contains(xs: Seq<Seq<u8>>, i: int)
    requires
        0 <= i < der_sorted(xs).len(),
    ensures
        xs.contains(der_sorted(xs)[i]),
{
    lemma_der_sorted_ensures(xs);
    let y = der_sorted(xs)[i];
    assert(der_sorted(xs).contains(y));
    assert(der_sorted(xs).to_multiset().count(y) > 0);
    assert(xs.to_multiset().count(y) > 0);
}

/// Sorting keeps complete DER values complete.
proof fn lemma_der_sorted_elements(xs: Seq<Seq<u8>>)
    requires
        all_elements(xs),
    ensures
        all_elements(der_sorted(xs)),
{
    assert forall|i: int| 0 <= i < der_sorted(xs).len() implies is_element(
        #[trigger] der_sorted(xs)[i],
    ) by {
        lemma_der_sorted_contains(xs, i);
        let j = choose|j: int| 0 <= j < xs.len() && xs[j] == der_sorted(xs)[i];
    }
}

/// Sorting keeps SignerInfos that name their digest algorithm.
proof fn lemma_der_sorted_signer_infos(xs: Seq<Seq<u8>>)
    requires
        all_signer_infos(xs),
    ensures
        all_signer_infos(der_sorted(xs)),
{
    assert forall|i: int| 0 <= i < der_sorted(xs).len() implies (
    #[trigger] signer_info_digest_algorithm(der_sorted(xs)[i])) is Some by {
        lemma_der_sorted_contains(xs, i);
        let j = choose|j: int| 0 <= j < xs.len() && xs[j] == der_sorted(xs)[i];
    }
}

/// The digest algorithm that a SignerInfo names is one complete DER value.
proof fn lemma_signer_info_digest_algorithm_element(si: Seq<u8>)
    requires
        signer_info_digest_algorithm(si) is Some,
    ensures
        is_element(signer_info_digest_algorithm(si).unwrap()),
{
    let (_, c, _) = parse_tlv(si).unwrap();
    let (_, _, r1) = parse_tlv(c).unwrap();
    let (_, _, r2) = parse_tlv(r1).unwrap();
    lemma_parse_tlv_canonical(r2);
    let (td, dc, _) = parse_tlv(r2).unwrap();
    lemma_tlv_is_element(td, dc);
}

/// What `dedup` keeps is what the input holds.
pub proof fn lemma_dedup_contains(xs: Seq<Seq<u8>>, y: Seq<u8>)
    ensures
        dedup(xs).contains(y) <==> xs.contains(y),
    decreases xs.len(),
{
    if xs.len() > 0 {
        lemma_dedup_contains(xs.drop_last(), y);
        let d = dedup(xs.drop_last());
        if xs.contains(y) && !xs.drop_last().contains(y) {
            let k = choose|k: int| 0 <= k < xs.len() && xs[k] == y;
            if k < xs.len() - 1 {
                assert(xs.drop_last()[k] == y);
            }
            assert(xs.last() == y);
            if !d.contains(xs.last()) {
                assert(d.push(xs.last())[d.len() as int] == y);
            }
        }
        if dedup(xs).contains(y) && !d.contains(y) {
            assert(!d.contains(xs.last()));
            let k = choose|k: int| 0 <= k < dedup(xs).len() && dedup(xs)[k] == y;
            if k < d.len() {
                assert(d[k] == y);
            }
            assert(xs[xs.len() - 1] == y);
        }
        if xs.drop_last().contains(y) {
            let k = choose|k: int| 0 <= k < xs.drop_last().len() && xs.drop_last()[k] == y;
            assert(xs[k] == y);
        }
        if d.contains(y) && !d.contains(xs.last()) {
            let k = choose|k: int| 0 <= k < d.len() && d[k] == y;
            assert(d.push(xs.last())[k] == y);
        }
    }
}

/// `dedup` holds no value twice.
pub proof fn lemma_dedup_distinct(xs: Seq<Seq<u8>>)
    ensures
        forall|i: int, j: int|
            0 <= i < j < dedup(xs).len() ==> dedup(xs)[i] != dedup(xs)[j],
    decreases xs.len(),
{
    if xs.len() > 0 {
        lemma_dedup_distinct(xs.drop_last());
        let d = dedup(xs.drop_last());
        if !d.contains(xs.last()) {
            assert forall|i: int, j: int| 0 <= i < j < dedup(xs).len() implies dedup(xs)[i] != dedup(
                xs,
            )[j] by {
                if j == d.len() {
                    if dedup(xs)[i] == dedup(xs)[j] {
                        assert(d[i] == xs.last());
                    }
                }
            }
        }
    }
}

/// The digestAlgorithms of a signature are complete DER values.
proof fn lemma_digest_algorithms_elements(sis: Seq<Seq<u8>>)
    requires
        all_signer_infos(sis),
    ensures
        all_elements(digest_algorithms_of(sis)),
{
    let all = signer_digest_algorithms(sis);
    assert forall|i: int| 0 <= i < digest_algorithms_of(sis).len() implies is_element(
        #[trigger] digest_algorithms_of(sis)[i],
    ) by {
        let y = digest_algorithms_of(sis)[i];
        assert(dedup(all).contains(y));
        lemma_dedup_contains(all, y);
        let k = choose|k: int| 0 <= k < all.len() && all[k] == y;
        assert(signer_info_digest_algorithm(sis[k]) is Some);
        lemma_signer_info_digest_algorithm_element(sis[k]);
    }
}

/// Splitting the DER SET OF contents of complete values gives them back in DER order.
proof fn lemma_parse_set_of(xs: Seq<Seq<u8>>)
    requires
        all_elements(xs),
    ensures
        crate::der::parse_elements(set_of_content(xs)) == Some(der_sorted(xs)),
{
    lemma_der_sorted_elements(xs);
    lemma_parse_elements_flatten(der_sorted(xs));
}

/// The fields of the EncapsulatedContentInfo written here read back as id-data and the content.
pub(crate) proof fn lemma_encap_roundtrip(content: Option<Seq<u8>>)
    requires
        encap_content_info_der(content).len() < length_limit(),
    ensures
        ({
            let data = oid_content(id_data_arcs());
            let econtent = match content {
                Some(c) => tlv(0xA0, tlv(0x04, c)),
                None => Seq::empty(),
            };
            &&& encap_content_info_der(content) == tlv(0x30, oid_der(data) + econtent)
            &&& read_encap_fields(oid_der(data) + econtent) == Some((data, content))
        }),
{
    let data = oid_content(id_data_arcs());
    let econtent = match content {
        Some(c) => tlv(0xA0, tlv(0x04, c)),
        None => Seq::empty(),
    };
    lemma_parse_tlv(0x06, data, econtent);
    match content {
        Some(p) => {
            lemma_parse_tlv(0xA0, tlv(0x04, p), Seq::empty());
            assert(tlv(0xA0, tlv(0x04, p)) + Seq::<u8>::empty() =~= tlv(0xA0, tlv(0x04, p)));
            lemma_parse_tlv(0x04, p, Seq::empty());
            assert(tlv(0x04, p) + Seq::<u8>::empty() =~= tlv(0x04, p));
        },
        None => {
            assert(oid_der(data) + econtent =~= oid_der(data));
            assert(tlv(0x06, data) + Seq::<u8>::empty() =~= tlv(0x06, data));
        },
    }
}

/// The certificates and SignerInfos written after the EncapsulatedContentInfo
/// read back in DER order.
proof fn lemma_tail_roundtrip(certs: Seq<Seq<u8>>, sis: Seq<Seq<u8>>)
    requires
        all_elements(certs),
        all_signer_infos(sis),
        (certificates_der(certs) + tlv(0x31, set_of_content(sis))).len() < length_limit(),
    ensures
        ({
            let sis_der = tlv(0x31, set_of_content(sis));
            &&& read_certificates(certificates_der(certs) + sis_der) == Some(
                (der_sorted(certs), sis_der),
            )
            &&& read_signer_infos(skip_crls(sis_der)) == Some(der_sorted(sis))
        }),
{
    let sis_der = tlv(0x31, set_of_content(sis));
    let c = certificates_der(certs) + sis_der;
    lemma_signer_infos_elements(sis);
    lemma_parse_tlv(0x31, set_of_content(sis), Seq::empty());
    assert(sis_der + Seq::<u8>::empty() =~= sis_der);
    lemma_parse_set_of(sis);
    lemma_der_sorted_signer_infos(sis);
    assert(read_signer_infos(sis_der) == Some(der_sorted(sis)));
    assert(skip_crls(sis_der) == sis_der);
    if certs.len() == 0 {
        assert(c =~= sis_der);
        lemma_der_sorted_ensures(certs);
        assert(der_sorted(certs) =~= Seq::<Seq<u8>>::empty());
    } else {
        lemma_parse_tlv(0xA0, set_of_content(certs), sis_der);
        lemma_parse_set_of(certs);
    }
}

/// SignerInfos that name their digest algorithm are complete DER values.
proof fn lemma_signer_infos_elements(sis: Seq<Seq<u8>>)
    requires
        all_signer_infos(sis),
    ensures
        all_elements(sis),
{
    assert forall|i: int| 0 <= i < sis.len() implies is_element(#[trigger] sis[i]) by {
        assert(signer_info_digest_algorithm(sis[i]) is Some);
    }
}

/// The fields after the digestAlgorithms of a finalized signature read back.
pub(crate) proof fn lemma_after_digests_roundtrip(
    content: Option<Seq<u8>>,
    certs: Seq<Seq<u8>>,
    sis: Seq<Seq<u8>>,
)
    requires
        all_elements(certs),
        all_signer_infos(sis),
        (encap_content_info_der(content) + certificates_der(certs) + tlv(
            0x31,
            set_of_content(sis),
        )).len() < length_limit(),
    ensures
        read_after_digests(
            encap_content_info_der(content) + certificates_der(certs) + tlv(
                0x31,
                set_of_content(sis),
            ),
        ) == Some((oid_content(id_data_arcs()), content, der_sorted(certs), der_sorted(sis))),
{
    let data = oid_content(id_data_arcs());
    let econtent = match content {
        Some(c) => tlv(0xA0, tlv(0x04, c)),
        None => Seq::empty(),
    };
    let ec = oid_der(data) + econtent;
    let sis_der = tlv(0x31, set_of_content(sis));
    let c = certificates_der(certs) + sis_der;
    let b = encap_content_info_der(content) + certificates_der(certs) + sis_der;
    lemma_encap_roundtrip(content);
    assert(b =~= tlv(0x30, ec) + c);
    lemma_parse_tlv(0x30, ec, c);
    lemma_tail_roundtrip(certs, sis);
}

/// Reading the SignedData of a finalized signature gives back the content type
/// id-data, the payload when attached, and the certificates and SignerInfos in
/// DER order.
proof fn lemma_read_signed_data_roundtrip(v: CadesView, attached: bool)
    requires
        cades_wf(v),
        cades_der(v, attached).len() < length_limit(),
    ensures
        ({
            let content = if attached {
                Some(v.payload)
            } else {
                None
            };
            let sd = signed_data_der(
                digest_algorithms_of(v.signer_infos),
                encap_content_info_der(content),
                v.certificates,
                v.signer_infos,
            );
            read_signed_data(sd) == Some(
                (
                    oid_content(id_data_arcs()),
                    content,
                    der_sorted(v.certificates),
                    der_sorted(v.signer_infos),
                ),
            )
        }),
{
    let content = if attached {
        Some(v.payload)
    } else {
        None
    };
    let digests = digest_algorithms_of(v.signer_infos);
    let encap = encap_content_info_der(content);
    let certs = certificates_der(v.certificates);
    let sis_der = tlv(0x31, set_of_content(v.signer_infos));
    let dig_der = tlv(0x31, set_of_content(digests));
    let b = encap + certs + sis_der;
    let a = dig_der + b;
    let version = signed_data_version(v.certificates, v.signer_infos);
    let sdc = small_int_der(version) + a;
    let sd = signed_data_der(digests, encap, v.certificates, v.signer_infos);
    assert(sd =~= tlv(0x30, sdc));
    lemma_parse_tlv(0x30, sdc, Seq::empty());
    assert(tlv(0x30, sdc) + Seq::<u8>::empty() =~= tlv(0x30, sdc));
    lemma_parse_tlv(0x02, seq![version], a);
    lemma_parse_tlv(0x31, set_of_content(digests), b);
    lemma_digest_algorithms_elements(v.signer_infos);
    lemma_parse_set_of(digests);
    lemma_after_digests_roundtrip(content, v.certificates, v.signer_infos);
}

/// Reading an attached signature gives back the payload it was made of, and
/// its certificates and SignerInfos, in DER order: by the fields, and, where
/// `rasn` decodes the ContentInfo and the SignedData written, as
/// `Cades::from_attached_signature` reads it.
pub proof fn lemma_attached_roundtrip(v: CadesView)
    requires
        cades_wf(v),
        cades_der(v, true).len() < length_limit(),
    ensures
        read_attached(
            cades_der(v, true),
            oid_content(id_signed_data_arcs()),
            oid_content(id_data_arcs()),
        ) == AttachedRead::Parts(v.payload, der_sorted(v.certificates), der_sorted(v.signer_infos)),
        is_content_info_der(cades_der(v, true)) && is_signed_data_der(cades_signed_data(v, true))
            ==> accepted_attached(
            cades_der(v, true),
            oid_content(id_signed_data_arcs()),
            oid_content(id_data_arcs()),
        ) == AttachedRead::Parts(v.payload, der_sorted(v.certificates), der_sorted(v.signer_infos)),
{
    lemma_content_info_shell(v, true);
    lemma_read_signed_data_roundtrip(v, true);
}

/// Reading a detached signature as attached finds no content: by the fields,
/// and, where `rasn` decodes the ContentInfo and the SignedData written, as
/// `Cades::from_attached_signature` reads it.
pub proof fn lemma_detached_has_no_content(v: CadesView)
    requires
        cades_wf(v),
        cades_der(v, false).len() < length_limit(),
    ensures
        read_attached(
            cades_der(v, false),
            oid_content(id_signed_data_arcs()),
            oid_content(id_data_arcs()),
        ) == AttachedRead::ContentMissing,
        is_content_info_der(cades_der(v, false)) && is_signed_data_der(cades_signed_data(v, false))
            ==> accepted_attached(
            cades_der(v, false),
            oid_content(id_signed_data_arcs()),
            oid_content(id_data_arcs()),
        ) == AttachedRead::ContentMissing,
{
    lemma_content_info_shell(v, false);
    lemma_read_signed_data_roundtrip(v, false);
}

/// The ContentInfo of a finalized signature names id-signedData and wraps its SignedData.
proof fn lemma_content_info_shell(v: CadesView, attached: bool)
    requires
        cades_der(v, attached).len() < length_limit(),
    ensures
        ({
            let sd = signed_data_der(
                digest_algorithms_of(v.signer_infos),
                encap_content_info_der(
                    if attached {
                        Some(v.payload)
                    } else {
                        None
                    },
                ),
                v.certificates,
                v.signer_infos,
            );
            let s = cades_der(v, attached);
            let signed = oid_content(id_signed_data_arcs());
            &&& parse_tlv(s) == Some((0x30u8, oid_der(signed) + tlv(0xA0, sd), Seq::<u8>::empty()))
            &&& parse_tlv(oid_der(signed) + tlv(0xA0, sd)) == Some(
                (0x06u8, signed, tlv(0xA0, sd)),
            )
            &&& parse_tlv(tlv(0xA0, sd)) == Some((0xA0u8, sd, Seq::<u8>::empty()))
            &&& parse_tlv(sd) is Some
        }),
{
    let sd = signed_data_der(
        digest_algorithms_of(v.signer_infos),
        encap_content_info_der(
            if attached {
                Some(v.payload)
            } else {
                None
            },
        ),
        v.certificates,
        v.signer_infos,
    );
    let signed = oid_content(id_signed_data_arcs());
    let ci = oid_der(signed) + tlv(0xA0, sd);
    let s = content_info_der(sd);
    lemma_parse_tlv(0x30, ci, Seq::empty());
    assert(tlv(0x30, ci) + Seq::<u8>::empty() =~= tlv(0x30, ci));
    lemma_parse_tlv(0x06, signed, tlv(0xA0, sd));
    lemma_parse_tlv(0xA0, sd, Seq::empty());
    assert(tlv(0xA0, sd) + Seq::<u8>::empty() =~= tlv(0xA0, sd));
    let digests = digest_algorithms_of(v.signer_infos);
    let sdc = small_int_der(signed_data_version(v.certificates, v.signer_infos)) + tlv(
        0x31,
        set_of_content(digests),
    ) + encap_content_info_der(
        if attached {
            Some(v.payload)
        } else {
            None
        },
    ) + certificates_der(v.certificates) + tlv(0x31, set_of_content(v.signer_infos));
    assert(sd =~= tlv(0x30, sdc));
    lemma_parse_tlv(0x30, sdc, Seq::empty());
    assert(tlv(0x30, sdc) + Seq::<u8>::empty() =~= tlv(0x30, sdc));
}

/// `dedup` holds no value twice.
proof fn lemma_dedup_no_duplicates(xs: Seq<Seq<u8>>)
    ensures
        dedup(xs).no_duplicates(),
{
    lemma_dedup_distinct(xs);
    assert forall|i: int, j: int|
        (0 <= i < dedup(xs).len() && 0 <= j < dedup(xs).len() && i != j) implies dedup(xs)[i]
        != dedup(xs)[j] by {
        if i > j {
            assert(dedup(xs)[j] != dedup(xs)[i]);
        }
    }
}

/// Sequences without repeats that hold the same values hold them with the same multiplicities.
proof fn lemma_distinct_same_values(a: Seq<Seq<u8>>, b: Seq<Seq<u8>>)
    requires
        a.no_duplicates(),
        b.no_duplicates(),
        forall|y: Seq<u8>| a.contains(y) <==> b.contains(y),
    ensures
        a.to_multiset() == b.to_multiset(),
{
    a.lemma_multiset_has_no_duplicates();
    b.lemma_multiset_has_no_duplicates();
    assert forall|y: Seq<u8>| a.to_multiset().count(y) == b.to_multiset().count(y) by {
        if a.contains(y) {
            assert(a.to_multiset().count(y) > 0);
            assert(b.to_multiset().count(y) > 0);
            assert(a.to_multiset().contains(y));
            assert(b.to_multiset().contains(y));
        } else {
            assert(a.to_multiset().count(y) == 0);
            assert(b.to_multiset().count(y) == 0);
        }
    }
    assert(a.to_multiset() =~= b.to_multiset());
}

/// Whether a digest algorithm is named by a SignerInfo depends only on which
/// SignerInfos there are.
proof fn lemma_signer_digest_algorithms_values(v: Seq<Seq<u8>>, w: Seq<Seq<u8>>, y: Seq<u8>)
    requires
        v.to_multiset() == w.to_multiset(),
        signer_digest_algorithms(v).contains(y),
    ensures
        signer_digest_algorithms(w).contains(y),
{
    let i = choose|i: int| 0 <= i < v.len() && signer_digest_algorithms(v)[i] == y;
    let si = v[i];
    assert(v.contains(si));
    assert(v.to_multiset().count(si) > 0);
    assert(w.to_multiset().count(si) > 0);
    assert(w.contains(si));
    let j = choose|j: int| 0 <= j < w.len() && w[j] == si;
    assert(signer_digest_algorithms(w)[j] == y);
}

/// The digestAlgorithms of a signature do not depend on the order of its SignerInfos.
proof fn lemma_digest_algorithms_permutation(v: Seq<Seq<u8>>, w: Seq<Seq<u8>>)
    requires
        v.to_multiset() == w.to_multiset(),
    ensures
        der_sorted(digest_algorithms_of(v)) == der_sorted(digest_algorithms_of(w)),
{
    let a = digest_algorithms_of(v);
    let b = digest_algorithms_of(w);
    lemma_dedup_no_duplicates(signer_digest_algorithms(v));
    lemma_dedup_no_duplicates(signer_digest_algorithms(w));
    assert forall|y: Seq<u8>| a.contains(y) <==> b.contains(y) by {
        lemma_dedup_contains(signer_digest_algorithms(v), y);
        lemma_dedup_contains(signer_digest_algorithms(w), y);
        if signer_digest_algorithms(v).contains(y) {
            lemma_signer_digest_algorithms_values(v, w, y);
        }
        if signer_digest_algorithms(w).contains(y) {
            lemma_signer_digest_algorithms_values(w, v, y);
        }
    }
    lemma_distinct_same_values(a, b);
    crate::order::lemma_der_sorted_permutation(a, b);
}

/// A value of a sequence is a value of each of its permutations.
proof fn lemma_permutation_contains(a: Seq<Seq<u8>>, b: Seq<Seq<u8>>, x: Seq<u8>)
    requires
        a.to_multiset() == b.to_multiset(),
        a.contains(x),
    ensures
        b.contains(x),
{
    assert(a.to_multiset().count(x) > 0);
    assert(b.to_multiset().count(x) > 0);
}

/// The version of a SignedData does not depend on the order of its
/// certificates and SignerInfos.
proof fn lemma_version_permutation(
    c: Seq<Seq<u8>>,
    d: Seq<Seq<u8>>,
    s: Seq<Seq<u8>>,
    t: Seq<Seq<u8>>,
)
    requires
        c.to_multiset() == d.to_multiset(),
        s.to_multiset() == t.to_multiset(),
    ensures
        signed_data_version(c, s) == signed_data_version(d, t),
{
    assert forall|tag: u8| has_choice(c, tag) == has_choice(d, tag) by {
        if has_choice(c, tag) {
            let i = choose|i: int| 0 <= i < c.len() && c[i].len() > 0 && #[trigger] c[i][0] == tag;
            assert(c.contains(c[i]));
            lemma_permutation_contains(c, d, c[i]);
            let j = choose|j: int| 0 <= j < d.len() && d[j] == c[i];
            assert(d[j][0] == tag);
        }
        if has_choice(d, tag) {
            let i = choose|i: int| 0 <= i < d.len() && d[i].len() > 0 && #[trigger] d[i][0] == tag;
            assert(d.contains(d[i]));
            lemma_permutation_contains(d, c, d[i]);
            let j = choose|j: int| 0 <= j < c.len() && c[j] == d[i];
            assert(c[j][0] == tag);
        }
    }
    if has_version_3(s) {
        let i = choose|i: int| 0 <= i < s.len() && #[trigger] signer_info_version_3(s[i]);
        assert(s.contains(s[i]));
        lemma_permutation_contains(s, t, s[i]);
        let j = choose|j: int| 0 <= j < t.len() && t[j] == s[i];
        assert(signer_info_version_3(t[j]));
    }
    if has_version_3(t) {
        let i = choose|i: int| 0 <= i < t.len() && #[trigger] signer_info_version_3(t[i]);
        assert(t.contains(t[i]));
        lemma_permutation_contains(t, s, t[i]);
        let j = choose|j: int| 0 <= j < s.len() && s[j] == t[i];
        assert(signer_info_version_3(s[j]));
    }
}

/// A signature does not depend on the order in which its certificates and
/// signers were added: the same payload, certificates and SignerInfos give
/// the same octets.
pub proof fn lemma_signature_independent_of_order(v: CadesView, w: CadesView, attached: bool)
    requires
        v.payload == w.payload,
        v.certificates.to_multiset() == w.certificates.to_multiset(),
        v.signer_infos.to_multiset() == w.signer_infos.to_multiset(),
    ensures
        cades_der(v, attached) == cades_der(w, attached),
{
    crate::order::lemma_der_sorted_permutation(v.certificates, w.certificates);
    crate::order::lemma_der_sorted_permutation(v.signer_infos, w.signer_infos);
    lemma_digest_algorithms_permutation(v.signer_infos, w.signer_infos);
    lemma_version_permutation(v.certificates, w.certificates, v.signer_infos, w.signer_infos);
    assert(v.certificates.len() == v.certificates.to_multiset().len());
    assert(w.certificates.len() == w.certificates.to_multiset().len());
    assert(certificates_der(v.certificates) == certificates_der(w.certificates));
}

/// Finalizing what was read from an attached signature gives back the same
/// octets: read by the fields, and, where `rasn` decodes the ContentInfo and
/// the SignedData written, as `Cades::from_attached_signature` reads it.
pub proof fn lemma_reread_refinalize(v: CadesView)
    requires
        cades_wf(v),
        cades_der(v, true).len() < length_limit(),
    ensures
        read_attached(
            cades_der(v, true),
            oid_content(id_signed_data_arcs()),
            oid_content(id_data_arcs()),
        ) matches AttachedRead::Parts(p, certs, sis) && cades_der(
            CadesView { payload: p, certificates: certs, signer_infos: sis },
            true,
        ) == cades_der(v, true),
        is_content_info_der(cades_der(v, true)) && is_signed_data_der(cades_signed_data(v, true))
            ==> (accepted_attached(
            cades_der(v, true),
            oid_content(id_signed_data_arcs()),
            oid_content(id_data_arcs()),
        ) matches AttachedRead::Parts(p, certs, sis) && cades_der(
            CadesView { payload: p, certificates: certs, signer_infos: sis },
            true,
        ) == cades_der(v, true)),
{
    lemma_attached_roundtrip(v);
    lemma_der_sorted_ensures(v.certificates);
    lemma_der_sorted_ensures(v.signer_infos);
    lemma_signature_independent_of_order(
        CadesView {
            payload: v.payload,
            certificates: der_sorted(v.certificates),
            signer_infos: der_sorted(v.signer_infos),
        },
        v,
        true,
    );
}

/// The digestAlgorithms of a signature name each digest algorithm of its
/// SignerInfos, and each only once.
pub proof fn lemma_digest_algorithms_distinct_and_complete(sis: Seq<Seq<u8>>)
    requires
        all_signer_infos(sis),
    ensures
        digest_algorithms_of(sis).no_duplicates(),
        forall|i: int|
            0 <= i < sis.len() ==> digest_algorithms_of(sis).contains(
                #[trigger] signer_info_digest_algorithm(sis[i]).unwrap(),
            ),
        forall|y: Seq<u8>|
            #[trigger] digest_algorithms_of(sis).contains(y) ==> exists|i: int|
                0 <= i < sis.len() && signer_info_digest_algorithm(sis[i]) == Some(y),
{
    let all = signer_digest_algorithms(sis);
    lemma_dedup_no_duplicates(all);
    assert forall|i: int| 0 <= i < sis.len() implies digest_algorithms_of(sis).contains(
        #[trigger] signer_info_digest_algorithm(sis[i]).unwrap(),
    ) by {
        let y = signer_info_digest_algorithm(sis[i]).unwrap();
        assert(all[i] == y);
        lemma_dedup_contains(all, y);
    }
    assert forall|y: Seq<u8>| #[trigger] digest_algorithms_of(sis).contains(y) implies exists|i: int|
        0 <= i < sis.len() && signer_info_digest_algorithm(sis[i]) == Some(y) by {
        lemma_dedup_contains(all, y);
        let k = choose|k: int| 0 <= k < all.len() && all[k] == y;
        assert(signer_info_digest_algorithm(sis[k]) is Some);
    }
}

/// Signing a payload with one signer that always gives the same certificate,
/// then finalizing the attached signature: the certificates are that
/// certificate alone; there is one SignerInfo, naming its issuer and serial
/// number, SHA-256, the signed attributes whose signing-certificate attribute
/// is the one built for that certificate, and the signer's algorithm,
/// signature and unsigned attributes; the digestAlgorithms are SHA-256 alone;
/// the version is 1; and reading the signature back gives the payload, the
/// certificate and the SignerInfo (as `Cades::from_attached_signature` and
/// `cli::extract` read it, where `rasn` decodes the ContentInfo and the
/// SignedData written).
#[verifier::spinoff_prover]
pub proof fn lemma_one_signer<S: Signer>(
    signer: S,
    payload: Seq<u8>,
    v: CadesView,
    cert: Seq<u8>,
    attr_cert: Seq<u8>,
    sid_cert: Seq<u8>,
    alg: Seq<u8>,
    additional: Option<Seq<Seq<u8>>>,
    t: crate::time::UtcInstant,
    signature: Seq<u8>,
    unsigned: Option<Seq<Seq<u8>>>,
)
    requires
        signed_by(
            signer,
            CadesView { payload, certificates: Seq::empty(), signer_infos: Seq::empty() },
            v,
            cert,
            attr_cert,
            sid_cert,
            alg,
            additional,
            t,
            signature,
            unsigned,
        ),
        forall|c: Seq<u8>, d: Seq<u8>|
            signer.gives_certificate(c) && signer.gives_certificate(d) ==> c == d,
        cades_der(v, true).len() < length_limit(),
    ensures
        v.payload == payload,
        v.certificates == seq![cert],
        certificate_issuer_serial(cert) matches Some((issuer, serial)) && {
            let attrs = signed_attributes(attributes_or_none(additional), t, payload, cert, issuer, serial);
            &&& v.signer_infos == seq![signer_info_der(issuer, serial, attrs, alg, signature, unsigned)]
            &&& attrs.last() == signing_certificate_v2_attribute_der(cert, issuer, serial)
        },
        digest_algorithms_of(v.signer_infos) == seq![sha256_algorithm_der()],
        signed_data_version(v.certificates, v.signer_infos) == 1,
        read_attached(
            cades_der(v, true),
            oid_content(id_signed_data_arcs()),
            oid_content(id_data_arcs()),
        ) == AttachedRead::Parts(payload, v.certificates, v.signer_infos),
        is_content_info_der(cades_der(v, true)) && is_signed_data_der(cades_signed_data(v, true))
            ==> accepted_attached(
            cades_der(v, true),
            oid_content(id_signed_data_arcs()),
            oid_content(id_data_arcs()),
        ) == AttachedRead::Parts(payload, v.certificates, v.signer_infos),
{
    lemma_one_signer_shape(signer, payload, v, cert, attr_cert, sid_cert, alg, additional, t, signature, unsigned);
    let (issuer, serial) = certificate_issuer_serial(cert).unwrap();
    let attrs = signed_attributes(attributes_or_none(additional), t, payload, cert, issuer, serial);
    let si = signer_info_der(issuer, serial, attrs, alg, signature, unsigned);
    lemma_single_signer_info_length(v, si);
    lemma_signer_info_digest_algorithm(issuer, serial, attrs, alg, signature, unsigned);
    lemma_single_signature_reads(v, cert, si);
}

/// What `signed_by` says of a first signer that always gives the same certificate.
#[verifier::spinoff_prover]
proof fn lemma_one_signer_shape<S: Signer>(
    signer: S,
    payload: Seq<u8>,
    v: CadesView,
    cert: Seq<u8>,
    attr_cert: Seq<u8>,
    sid_cert: Seq<u8>,
    alg: Seq<u8>,
    additional: Option<Seq<Seq<u8>>>,
    t: crate::time::UtcInstant,
    signature: Seq<u8>,
    unsigned: Option<Seq<Seq<u8>>>,
)
    requires
        signed_by(
            signer,
            CadesView { payload, certificates: Seq::empty(), signer_infos: Seq::empty() },
            v,
            cert,
            attr_cert,
            sid_cert,
            alg,
            additional,
            t,
            signature,
            unsigned,
        ),
        forall|c: Seq<u8>, d: Seq<u8>|
            signer.gives_certificate(c) && signer.gives_certificate(d) ==> c == d,
    ensures
        v.payload == payload,
        v.certificates == seq![cert],
        certificate_issuer_serial(cert) matches Some((issuer, serial)) && {
            let attrs = signed_attributes(attributes_or_none(additional), t, payload, cert, issuer, serial);
            &&& v.signer_infos == seq![signer_info_der(issuer, serial, attrs, alg, signature, unsigned)]
            &&& attrs.last() == signing_certificate_v2_attribute_der(cert, issuer, serial)
        },
{
    assert(signer.gives_certificate(cert));
    assert(signer.gives_certificate(attr_cert));
    assert(signer.gives_certificate(sid_cert));
    assert(v.certificates =~= seq![cert]);
    let (issuer, serial) = certificate_issuer_serial(cert).unwrap();
    let attrs = signed_attributes(attributes_or_none(additional), t, payload, cert, issuer, serial);
    assert(v.signer_infos =~= seq![signer_info_der(issuer, serial, attrs, alg, signature, unsigned)]);
}

/// A signature with one certificate and one SignerInfo written here: its
/// digestAlgorithms, its version, and what reading it back gives.
#[verifier::spinoff_prover]
proof fn lemma_single_signature_reads(v: CadesView, cert: Seq<u8>, si: Seq<u8>)
    requires
        v.certificates == seq![cert],
        v.signer_infos == seq![si],
        certificate_issuer_serial(cert) is Some,
        signer_info_digest_algorithm(si) == Some(sha256_algorithm_der()),
        !signer_info_version_3(si),
        cades_der(v, true).len() < length_limit(),
    ensures
        digest_algorithms_of(v.signer_infos) == seq![sha256_algorithm_der()],
        signed_data_version(v.certificates, v.signer_infos) == 1,
        read_attached(
            cades_der(v, true),
            oid_content(id_signed_data_arcs()),
            oid_content(id_data_arcs()),
        ) == AttachedRead::Parts(v.payload, v.certificates, v.signer_infos),
        is_content_info_der(cades_der(v, true)) && is_signed_data_der(cades_signed_data(v, true))
            ==> accepted_attached(
            cades_der(v, true),
            oid_content(id_signed_data_arcs()),
            oid_content(id_data_arcs()),
        ) == AttachedRead::Parts(v.payload, v.certificates, v.signer_infos),
{
    lemma_single_digest_algorithm(v.signer_infos);
    lemma_single_signer_version(cert, si);
    assert(cades_wf(v)) by {
        assert(is_element(cert));
        assert(all_signer_infos(v.signer_infos));
    }
    lemma_attached_roundtrip(v);
    lemma_single_set_of(cert);
    lemma_single_set_of(si);
}

/// The DER order of one value is that value.
proof fn lemma_single_set_of(x: Seq<u8>)
    ensures
        der_sorted(seq![x]) == seq![x],
        set_of_content(seq![x]) == x,
{
    lemma_der_sorted_char(seq![x], seq![x]);
    seq![x].lemma_flatten_one_element();
}

/// The one SignerInfo of a signature is shorter than the signature.
#[verifier::spinoff_prover]
proof fn lemma_single_signer_info_length(v: CadesView, si: Seq<u8>)
    requires
        v.signer_infos == seq![si],
        cades_der(v, true).len() < length_limit(),
    ensures
        si.len() < length_limit(),
{
    lemma_single_set_of(si);
    assert(tlv(0x31, set_of_content(v.signer_infos)).len() >= si.len());
    assert(cades_signed_data(v, true).len() >= si.len());
    assert(cades_der(v, true).len() >= cades_signed_data(v, true).len());
}

/// The digestAlgorithms of one SignerInfo written here: SHA-256 alone.
proof fn lemma_single_digest_algorithm(sis: Seq<Seq<u8>>)
    requires
        sis.len() == 1,
        signer_info_digest_algorithm(sis[0]) == Some(sha256_algorithm_der()),
    ensures
        digest_algorithms_of(sis) == seq![sha256_algorithm_der()],
{
    let all = signer_digest_algorithms(sis);
    assert(all =~= seq![sha256_algorithm_der()]);
    assert(all.drop_last() =~= Seq::<Seq<u8>>::empty());
    assert(dedup(all.drop_last()) =~= Seq::<Seq<u8>>::empty());
    assert(dedup(all) =~= seq![sha256_algorithm_der()]);
}

/// One certificate and one SignerInfo of version 1 give a SignedData of version 1.
proof fn lemma_single_signer_version(cert: Seq<u8>, si: Seq<u8>)
    requires
        certificate_issuer_serial(cert) is Some,
        !signer_info_version_3(si),
    ensures
        signed_data_version(seq![cert], seq![si]) == 1,
{
    assert(cert[0] == 0x30u8);
    assert(!crate::cms::has_choice(seq![cert], 0xA3));
    assert(!crate::cms::has_choice(seq![cert], 0xA2));
    assert(!crate::cms::has_choice(seq![cert], 0xA1));
    assert(!crate::cms::has_version_3(seq![si]));
}

} // verus!
