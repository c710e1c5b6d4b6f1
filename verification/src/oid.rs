//! OBJECT IDENTIFIER values and the identifiers that CAdES signatures use.
use vstd::prelude::*;

verus! {

/// Base-128 digits of `m`, each with the high bit set (the leading digits of an arc).
pub open spec fn base128_high(m: nat) -> Seq<u8>
    decreases m,
{
    if m == 0 {
        Seq::empty()
    } else {
        base128_high(m / 128).push((m % 128 + 128) as u8)
    }
}

/// The encoding of one arc: base 128, most significant digit first, with the
/// high bit set on every octet but the last (X.690 8.19.2).
pub open spec fn base128(n: nat) -> Seq<u8> {
    base128_high(n / 128).push((n % 128) as u8)
}

/// The encodings of arcs, one after the other.
pub open spec fn arcs_content(arcs: Seq<u32>) -> Seq<u8>
    decreases arcs.len(),
{
    if arcs.len() == 0 {
        Seq::empty()
    } else {
        arcs_content(arcs.drop_last()) + base128(arcs.last() as nat)
    }
}

/// Arcs that name an object identifier: at least two, the first at most 2,
/// and the second at most 39 below the root arc 2.
pub open spec fn valid_arcs(arcs: Seq<u32>) -> bool {
    &&& arcs.len() >= 2
    &&& arcs[0] <= 2
    &&& arcs[0] < 2 ==> arcs[1] <= 39
}

/// The contents octets of the OBJECT IDENTIFIER with the given arcs: the
/// first two arcs packed as `40 * first + second`, then each further arc.
pub open spec fn oid_content(arcs: Seq<u32>) -> Seq<u8> {
    base128((40 * arcs[0] + arcs[1]) as nat) + arcs_content(arcs.skip(2))
}

/// The value of base-128 digits, most significant first; the high bit of
/// each octet is not a digit bit.
pub open spec fn base128_value(s: Seq<u8>) -> nat
    decreases s.len(),
{
    if s.len() == 0 {
        0
    } else {
        base128_value(s.drop_last()) * 128 + (s.last() % 128) as nat
    }
}

proof fn lemma_base128_high(m: nat)
    ensures
        base128_value(base128_high(m)) == m,
        forall|i: int| 0 <= i < base128_high(m).len() ==> #[trigger] base128_high(m)[i] >= 128,
    decreases m,
{
    if m > 0 {
        lemma_base128_high(m / 128);
        let h = base128_high(m);
        assert(h.drop_last() =~= base128_high(m / 128));
        assert(((m % 128 + 128) as u8) % 128 == m % 128);
        assert forall|i: int| 0 <= i < h.len() implies #[trigger] h[i] >= 128 by {
            if i < h.len() - 1 {
                assert(h[i] == base128_high(m / 128)[i]);
            }
        }
    } else {
        assert(base128_high(0) =~= Seq::<u8>::empty());
    }
}

/// The encoding of an arc: its digits give back the arc, every octet but the
/// last has the high bit set, and the last has it clear.
proof fn lemma_base128(n: nat)
    ensures
        base128_value(base128(n)) == n,
        base128(n).len() >= 1,
        base128(n).last() < 128,
        forall|i: int| 0 <= i < base128(n).len() - 1 ==> #[trigger] base128(n)[i] >= 128,
{
    lemma_base128_high(n / 128);
    let b = base128(n);
    assert(b.drop_last() =~= base128_high(n / 128));
    assert(((n % 128) as u8) % 128 == n % 128);
    assert forall|i: int| 0 <= i < b.len() - 1 implies #[trigger] b[i] >= 128 by {
        assert(b[i] == base128_high(n / 128)[i]);
    }
}

/// Arc encodings cannot be told apart from what follows them: where two
/// encodings, each followed by something, give the same octets, the arcs
/// and what follows are the same.
proof fn lemma_base128_prefix(n: nat, m: nat, r1: Seq<u8>, r2: Seq<u8>)
    requires
        base128(n) + r1 == base128(m) + r2,
    ensures
        n == m,
        r1 == r2,
{
    lemma_base128(n);
    lemma_base128(m);
    let x = base128(n);
    let y = base128(m);
    let s = x + r1;
    if x.len() < y.len() {
        assert(s[x.len() - 1] == x.last());
        assert(s[x.len() - 1] == y[x.len() - 1]);
        assert(y[x.len() - 1] >= 128);
    } else if y.len() < x.len() {
        assert(s[y.len() - 1] == y.last());
        assert(s[y.len() - 1] == x[y.len() - 1]);
        assert(x[y.len() - 1] >= 128);
    }
    assert(x =~= s.subrange(0, x.len() as int));
    assert(y =~= s.subrange(0, x.len() as int));
    assert(r1 =~= s.subrange(x.len() as int, s.len() as int));
    assert(r2 =~= s.subrange(x.len() as int, s.len() as int));
}

proof fn lemma_arcs_content_front(arcs: Seq<u32>)
    requires
        arcs.len() >= 1,
    ensures
        arcs_content(arcs) == base128(arcs[0] as nat) + arcs_content(arcs.drop_first()),
    decreases arcs.len(),
{
    if arcs.len() == 1 {
        assert(arcs.drop_last() =~= Seq::<u32>::empty());
        assert(arcs.drop_first() =~= Seq::<u32>::empty());
        assert(arcs_content(Seq::<u32>::empty()) == Seq::<u8>::empty());
        assert(arcs.last() == arcs[0]);
        assert(arcs_content(arcs) == arcs_content(arcs.drop_last()) + base128(arcs.last() as nat));
        assert(arcs_content(arcs) =~= base128(arcs[0] as nat) + Seq::<u8>::empty());
    } else {
        let p = arcs.drop_last();
        lemma_arcs_content_front(p);
        assert(p.drop_first() =~= arcs.drop_first().drop_last());
        assert(arcs.drop_first().last() == arcs.last());
        assert(arcs_content(arcs) =~= base128(arcs[0] as nat) + arcs_content(arcs.drop_first()));
    }
}

proof fn lemma_arcs_content_injective(a: Seq<u32>, b: Seq<u32>)
    requires
        arcs_content(a) == arcs_content(b),
    ensures
        a == b,
    decreases a.len(),
{
    if a.len() == 0 {
        if b.len() > 0 {
            lemma_arcs_content_front(b);
            lemma_base128(b[0] as nat);
            assert(arcs_content(b).len() > 0);
        }
        assert(a =~= b);
    } else {
        lemma_arcs_content_front(a);
        if b.len() == 0 {
            lemma_base128(a[0] as nat);
            assert(arcs_content(a).len() > 0);
        } else {
            lemma_arcs_content_front(b);
            lemma_base128_prefix(
                a[0] as nat,
                b[0] as nat,
                arcs_content(a.drop_first()),
                arcs_content(b.drop_first()),
            );
            lemma_arcs_content_injective(a.drop_first(), b.drop_first());
            assert(a =~= seq![a[0]] + a.drop_first());
            assert(b =~= seq![b[0]] + b.drop_first());
        }
    }
}

/// Different object identifiers have different encodings, so that comparing
/// encodings compares identifiers.
pub proof fn lemma_oid_content_injective(a: Seq<u32>, b: Seq<u32>)
    requires
        valid_arcs(a),
        valid_arcs(b),
        oid_content(a) == oid_content(b),
    ensures
        a == b,
{
    lemma_base128_prefix(
        (40 * a[0] + a[1]) as nat,
        (40 * b[0] + b[1]) as nat,
        arcs_content(a.skip(2)),
        arcs_content(b.skip(2)),
    );
    lemma_arcs_content_injective(a.skip(2), b.skip(2));
    assert(a[0] == b[0]);
    assert(a[1] == b[1]);
    assert(a =~= seq![a[0], a[1]] + a.skip(2));
    assert(b =~= seq![b[0], b[1]] + b.skip(2));
}

/// An object identifier, held as its DER contents octets.
pub struct Oid {
    content: Vec<u8>,
}

impl View for Oid {
    type V = Seq<u8>;

    closed spec fn view(&self) -> Seq<u8> {
        self.content@
    }
}

fn push_base128_high(out: &mut Vec<u8>, m: u64)
    ensures
        final(out)@ == old(out)@ + base128_high(m as nat),
    decreases m,
{
    if m > 0 {
        push_base128_high(out, m / 128);
        out.push((m % 128 + 128) as u8);
        proof {
            assert(base128_high(m as nat) == base128_high((m / 128) as nat).push(
                (m % 128 + 128) as u8,
            ));
        }
    } else {
        assert(old(out)@ + base128_high(0) =~= old(out)@);
    }
}

fn push_base128(out: &mut Vec<u8>, n: u64)
    ensures
        final(out)@ == old(out)@ + base128(n as nat),
{
    push_base128_high(out, n / 128);
    out.push((n % 128) as u8);
}

impl Oid {
    /// The object identifier with the given arcs, or `None` where they do not
    /// name one (fewer than two arcs, a first arc above 2, or a second arc
    /// above 39 below the root arcs 0 and 1).
    pub fn new(arcs: &[u32]) -> (r: Option<Oid>)
        ensures
            r is Some <==> valid_arcs(arcs@),
            r matches Some(o) ==> o@ == oid_content(arcs@),
    {
        if arcs.len() < 2 || arcs[0] > 2 || (arcs[0] < 2 && arcs[1] > 39) {
            return None;
        }
        let mut content = Vec::new();
        push_base128(&mut content, 40 * arcs[0] as u64 + arcs[1] as u64);
        let ghost first = content@;
        let mut i: usize = 2;
        while i < arcs.len()
            invariant
                2 <= i <= arcs.len(),
                content@ == first + arcs_content(arcs@.subrange(2, i as int)),
            decreases arcs.len() - i,
        {
            push_base128(&mut content, arcs[i] as u64);
            proof {
                let s = arcs@.subrange(2, i + 1);
                assert(s.drop_last() =~= arcs@.subrange(2, i as int));
            }
            i = i + 1;
        }
        assert(arcs@.subrange(2, arcs.len() as int) =~= arcs@.skip(2));
        Some(Oid { content })
    }

    /// The DER contents octets of the identifier.
    pub fn as_bytes(&self) -> (r: &[u8])
        ensures
            r@ == self@,
    {
        self.content.as_slice()
    }
}

/// id-data, 1.2.840.113549.1.7.1.
pub open spec fn id_data_arcs() -> Seq<u32> {
    seq![1, 2, 840, 113549, 1, 7, 1]
}

/// id-signedData, 1.2.840.113549.1.7.2.
pub open spec fn id_signed_data_arcs() -> Seq<u32> {
    seq![1, 2, 840, 113549, 1, 7, 2]
}

/// id-contentType, 1.2.840.113549.1.9.3.
pub open spec fn id_content_type_arcs() -> Seq<u32> {
    seq![1, 2, 840, 113549, 1, 9, 3]
}

/// id-messageDigest, 1.2.840.113549.1.9.4.
pub open spec fn id_message_digest_arcs() -> Seq<u32> {
    seq![1, 2, 840, 113549, 1, 9, 4]
}

/// id-signingTime, 1.2.840.113549.1.9.5.
pub open spec fn id_signing_time_arcs() -> Seq<u32> {
    seq![1, 2, 840, 113549, 1, 9, 5]
}

/// id-aa-signingCertificateV2, 1.2.840.113549.1.9.16.2.47.
pub open spec fn id_signing_certificate_v2_arcs() -> Seq<u32> {
    seq![1, 2, 840, 113549, 1, 9, 16, 2, 47]
}

/// id-sha256, 2.16.840.1.101.3.4.2.1.
pub open spec fn id_sha256_arcs() -> Seq<u32> {
    seq![2, 16, 840, 1, 101, 3, 4, 2, 1]
}

/// The arcs of sha256WithRSAEncryption, 1.2.840.113549.1.1.11.
pub open spec fn sha256_with_rsa_encryption_arcs() -> Seq<u32> {
    seq![1, 2, 840, 113549, 1, 1, 11]
}

fn known(arcs: &[u32]) -> (o: Oid)
    requires
        valid_arcs(arcs@),
    ensures
        o@ == oid_content(arcs@),
{
    match Oid::new(arcs) {
        Some(o) => o,
        None => {
            assert(false);
            Oid { content: Vec::new() }
        },
    }
}

/// id-data.
pub fn id_data() -> (o: Oid)
    ensures
        o@ == oid_content(id_data_arcs()),
{
    let a = [1u32, 2, 840, 113549, 1, 7, 1];
    assert(a@ == id_data_arcs());
    known(&a)
}

/// id-signedData.
pub fn id_signed_data() -> (o: Oid)
    ensures
        o@ == oid_content(id_signed_data_arcs()),
{
    let a = [1u32, 2, 840, 113549, 1, 7, 2];
    assert(a@ == id_signed_data_arcs());
    known(&a)
}

/// id-contentType.
pub fn id_content_type() -> (o: Oid)
    ensures
        o@ == oid_content(id_content_type_arcs()),
{
    let a = [1u32, 2, 840, 113549, 1, 9, 3];
    assert(a@ == id_content_type_arcs());
    known(&a)
}

/// id-messageDigest.
pub fn id_message_digest() -> (o: Oid)
    ensures
        o@ == oid_content(id_message_digest_arcs()),
{
    let a = [1u32, 2, 840, 113549, 1, 9, 4];
    assert(a@ == id_message_digest_arcs());
    known(&a)
}

/// id-signingTime.
pub fn id_signing_time() -> (o: Oid)
    ensures
        o@ == oid_content(id_signing_time_arcs()),
{
    let a = [1u32, 2, 840, 113549, 1, 9, 5];
    assert(a@ == id_signing_time_arcs());
    known(&a)
}

/// id-aa-signingCertificateV2.
pub fn id_signing_certificate_v2() -> (o: Oid)
    ensures
        o@ == oid_content(id_signing_certificate_v2_arcs()),
{
    let a = [1u32, 2, 840, 113549, 1, 9, 16, 2, 47];
    assert(a@ == id_signing_certificate_v2_arcs());
    known(&a)
}

/// id-sha256.
pub fn id_sha256() -> (o: Oid)
    ensures
        o@ == oid_content(id_sha256_arcs()),
{
    let a = [2u32, 16, 840, 1, 101, 3, 4, 2, 1];
    assert(a@ == id_sha256_arcs());
    known(&a)
}

/// sha256WithRSAEncryption.
pub fn sha256_with_rsa_encryption() -> (o: Oid)
    ensures
        o@ == oid_content(sha256_with_rsa_encryption_arcs()),
{
    let a = [1u32, 2, 840, 113549, 1, 1, 11];
    assert(a@ == sha256_with_rsa_encryption_arcs());
    known(&a)
}

} // verus!
