//! The DER order of SET OF components: ascending by their encodings, compared
//! octet by octet, a proper prefix first (X.690 11.6).
use vstd::prelude::*;
use vstd::relations::{sorted_by, total_ordering};

verus! {

broadcast use vstd::seq_lib::group_to_multiset_ensures;

/// `a` comes before or equals `b` in the lexicographic order of octet strings.
pub open spec fn lex_le(a: Seq<u8>, b: Seq<u8>) -> bool
    decreases a.len(),
{
    if a.len() == 0 {
        true
    } else if b.len() == 0 {
        false
    } else if a[0] != b[0] {
        a[0] < b[0]
    } else {
        lex_le(a.drop_first(), b.drop_first())
    }
}

/// The lexicographic order as a relation.
pub open spec fn lex_order() -> spec_fn(Seq<u8>, Seq<u8>) -> bool {
    |a: Seq<u8>, b: Seq<u8>| lex_le(a, b)
}

/// The components of a SET OF in DER order.
pub open spec fn der_sorted(xs: Seq<Seq<u8>>) -> Seq<Seq<u8>> {
    xs.sort_by(lex_order())
}

/// The contents octets of a DER SET OF with the given component encodings.
pub open spec fn set_of_content(xs: Seq<Seq<u8>>) -> Seq<u8> {
    der_sorted(xs).flatten()
}

proof fn lemma_lex_refl(a: Seq<u8>)
    ensures
        lex_le(a, a),
    decreases a.len(),
{
    if a.len() > 0 {
        lemma_lex_refl(a.drop_first());
    }
}

proof fn lemma_lex_antisym(a: Seq<u8>, b: Seq<u8>)
    requires
        lex_le(a, b),
        lex_le(b, a),
    ensures
        a == b,
    decreases a.len(),
{
    if a.len() == 0 {
        assert(b.len() == 0);
        assert(a =~= b);
    } else {
        lemma_lex_antisym(a.drop_first(), b.drop_first());
        assert(a =~= seq![a[0]] + a.drop_first());
        assert(b =~= seq![b[0]] + b.drop_first());
    }
}

proof fn lemma_lex_trans(a: Seq<u8>, b: Seq<u8>, c: Seq<u8>)
    requires
        lex_le(a, b),
        lex_le(b, c),
    ensures
        lex_le(a, c),
    decreases a.len(),
{
    if a.len() > 0 && b.len() > 0 && c.len() > 0 && a[0] == b[0] && b[0] == c[0] {
        lemma_lex_trans(a.drop_first(), b.drop_first(), c.drop_first());
    }
}

proof fn lemma_lex_total(a: Seq<u8>, b: Seq<u8>)
    ensures
        lex_le(a, b) || lex_le(b, a),
    decreases a.len(),
{
    if a.len() > 0 && b.len() > 0 && a[0] == b[0] {
        lemma_lex_total(a.drop_first(), b.drop_first());
    }
}

/// The lexicographic order of octet strings is a total order.
pub proof fn lemma_lex_total_ordering()
    ensures
        total_ordering(lex_order()),
{
    assert forall|a: Seq<u8>| #[trigger] lex_order()(a, a) by {
        lemma_lex_refl(a);
    }
    assert forall|a: Seq<u8>, b: Seq<u8>|
        #[trigger] lex_order()(a, b) && #[trigger] lex_order()(b, a) implies a == b by {
        lemma_lex_antisym(a, b);
    }
    assert forall|a: Seq<u8>, b: Seq<u8>, c: Seq<u8>|
        #[trigger] lex_order()(a, b) && #[trigger] lex_order()(b, c) implies lex_order()(a, c) by {
        lemma_lex_trans(a, b, c);
    }
    assert forall|a: Seq<u8>, b: Seq<u8>|
        #[trigger] lex_order()(a, b) || #[trigger] lex_order()(b, a) by {
        lemma_lex_total(a, b);
    }
}

/// Two sequences sorted by the same total order, holding the same elements
/// with the same multiplicities, are equal.
pub proof fn lemma_sorted_unique(a: Seq<Seq<u8>>, b: Seq<Seq<u8>>)
    requires
        sorted_by(a, lex_order()),
        sorted_by(b, lex_order()),
        a.to_multiset() == b.to_multiset(),
    ensures
        a == b,
    decreases a.len(),
{
    lemma_lex_total_ordering();
    assert(a.len() == b.len()) by {
        assert(a.len() == a.to_multiset().len());
        assert(b.len() == b.to_multiset().len());
    }
    if a.len() == 0 {
        assert(a =~= b);
    } else {
        assert(a.to_multiset().count(a[0]) > 0) by {
            assert(a.contains(a[0]));
        }
        assert(b.contains(a[0]));
        let j = choose|j: int| 0 <= j < b.len() && b[j] == a[0];
        assert(b.to_multiset().count(b[0]) > 0) by {
            assert(b.contains(b[0]));
        }
        assert(a.contains(b[0]));
        let i = choose|i: int| 0 <= i < a.len() && a[i] == b[0];
        assert(lex_le(a[0], b[0])) by {
            if i > 0 {
                assert(lex_order()(a[0], a[i]));
            } else {
                lemma_lex_refl(a[0]);
            }
        }
        assert(lex_le(b[0], a[0])) by {
            if j > 0 {
                assert(lex_order()(b[0], b[j]));
            } else {
                lemma_lex_refl(b[0]);
            }
        }
        lemma_lex_antisym(a[0], b[0]);
        let a1 = a.drop_first();
        let b1 = b.drop_first();
        assert(a.remove(0) =~= a1);
        assert(b.remove(0) =~= b1);
        assert(a1.to_multiset() == a.to_multiset().remove(a[0]));
        assert(b1.to_multiset() == b.to_multiset().remove(b[0]));
        assert(sorted_by(a1, lex_order())) by {
            assert forall|x: int, y: int| 0 <= x < y < a1.len() implies #[trigger] lex_order()(
                a1[x],
                a1[y],
            ) by {
                assert(lex_order()(a[x + 1], a[y + 1]));
            }
        }
        assert(sorted_by(b1, lex_order())) by {
            assert forall|x: int, y: int| 0 <= x < y < b1.len() implies #[trigger] lex_order()(
                b1[x],
                b1[y],
            ) by {
                assert(lex_order()(b[x + 1], b[y + 1]));
            }
        }
        lemma_sorted_unique(a1, b1);
        assert(a =~= seq![a[0]] + a1);
        assert(b =~= seq![b[0]] + b1);
    }
}

/// A sorted sequence with the same elements as `xs` is the DER order of `xs`.
pub proof fn lemma_der_sorted_char(xs: Seq<Seq<u8>>, ys: Seq<Seq<u8>>)
    requires
        sorted_by(ys, lex_order()),
        ys.to_multiset() == xs.to_multiset(),
    ensures
        der_sorted(xs) == ys,
{
    lemma_lex_total_ordering();
    xs.lemma_sort_by_ensures(lex_order());
    lemma_sorted_unique(der_sorted(xs), ys);
}

/// The DER order of a sequence is sorted and holds the same elements.
pub proof fn lemma_der_sorted_ensures(xs: Seq<Seq<u8>>)
    ensures
        sorted_by(der_sorted(xs), lex_order()),
        der_sorted(xs).to_multiset() == xs.to_multiset(),
        der_sorted(xs).len() == xs.len(),
{
    lemma_lex_total_ordering();
    xs.lemma_sort_by_ensures(lex_order());
    assert(der_sorted(xs).len() == der_sorted(xs).to_multiset().len());
    assert(xs.len() == xs.to_multiset().len());
}

/// The order does not depend on the order of the input: permutations of one
/// another have the same DER order.
pub proof fn lemma_der_sorted_permutation(xs: Seq<Seq<u8>>, ys: Seq<Seq<u8>>)
    requires
        xs.to_multiset() == ys.to_multiset(),
    ensures
        der_sorted(xs) == der_sorted(ys),
{
    lemma_der_sorted_ensures(xs);
    lemma_der_sorted_char(ys, der_sorted(xs));
}

// ---------------------------------------------------------------- exec

/// Whether `a` comes before or equals `b` in the lexicographic order.
pub fn lex_le_exec(a: &[u8], b: &[u8]) -> (r: bool)
    ensures
        r == lex_le(a@, b@),
{
    let mut i: usize = 0;
    assert(a@.skip(0) =~= a@);
    assert(b@.skip(0) =~= b@);
    while i < a.len() && i < b.len()
        invariant
            i <= a.len(),
            i <= b.len(),
            lex_le(a@, b@) == lex_le(a@.skip(i as int), b@.skip(i as int)),
        decreases a.len() - i,
    {
        if a[i] != b[i] {
            return a[i] < b[i];
        }
        assert(a@.skip(i as int).drop_first() =~= a@.skip(i + 1));
        assert(b@.skip(i as int).drop_first() =~= b@.skip(i + 1));
        i = i + 1;
    }
    i == a.len()
}

/// Copies `v`.
pub fn copy_bytes(v: &[u8]) -> (r: Vec<u8>)
    ensures
        r@ == v@,
{
    let mut out = Vec::new();
    crate::der::append_bytes(&mut out, v);
    assert(out@ =~= v@);
    out
}

/// The views of a vector of octet strings.
pub open spec fn views(v: Seq<Vec<u8>>) -> Seq<Seq<u8>> {
    Seq::new(v.len(), |i: int| v[i]@)
}

/// Sorts the components of a SET OF into DER order.
pub fn sort_der(xs: Vec<Vec<u8>>) -> (r: Vec<Vec<u8>>)
    ensures
        views(r@) == der_sorted(views(xs@)),
{
    let ghost orig = views(xs@);
    let mut rest = xs;
    let mut out: Vec<Vec<u8>> = Vec::new();
    while rest.len() > 0
        invariant
            orig.len() == rest.len() + out.len(),
            forall|k: int| 0 <= k < rest.len() ==> #[trigger] rest@[k]@ == orig[k],
            sorted_by(views(out@), lex_order()),
            views(out@).to_multiset() == orig.subrange(rest.len() as int, orig.len() as int).to_multiset(),
        decreases rest.len(),
    {
        let ghost before = views(out@);
        let ghost n = rest.len();
        let x = rest.pop().unwrap();
        assert(x@ == orig[n - 1]);
        let mut i: usize = 0;
        while i < out.len() && lex_le_exec(out[i].as_slice(), x.as_slice())
            invariant
                i <= out.len(),
                views(out@) == before,
                forall|k: int| 0 <= k < i ==> lex_le(#[trigger] before[k], x@),
            decreases out.len() - i,
        {
            i = i + 1;
        }
        out.insert(i, x);
        proof {
            lemma_lex_total_ordering();
            let now = views(out@);
            assert(now =~= before.insert(i as int, x@));
            assert forall|p: int, q: int| 0 <= p < q < now.len() implies #[trigger] lex_order()(
                now[p],
                now[q],
            ) by {
                if q < i {
                    assert(lex_order()(before[p], before[q]));
                } else if q == i {
                    assert(lex_le(before[p], x@));
                } else if p < i {
                    assert(lex_order()(before[p], before[q - 1]));
                } else if p == i {
                    // x comes before out[i], which comes before or equals the rest
                    lemma_lex_total(before[i as int], x@);
                    assert(!lex_le(before[i as int], x@));
                    assert(lex_le(x@, before[i as int]));
                    if q - 1 > i {
                        assert(lex_order()(before[i as int], before[q - 1]));
                        lemma_lex_trans(x@, before[i as int], before[q - 1]);
                    }
                } else {
                    assert(lex_order()(before[p - 1], before[q - 1]));
                }
            }
            let s_old = orig.subrange(n as int, orig.len() as int);
            let s_new = orig.subrange(n - 1, orig.len() as int);
            assert(s_new =~= seq![x@] + s_old);
            assert(s_new.to_multiset() == s_old.to_multiset().insert(x@)) by {
                vstd::seq_lib::lemma_multiset_commutative(seq![x@], s_old);
                assert(seq![x@].to_multiset() =~= Seq::<Seq<u8>>::empty().push(x@).to_multiset());
                assert(Seq::<Seq<u8>>::empty().push(x@) =~= seq![x@]);
                assert(Seq::<Seq<u8>>::empty().to_multiset() =~= vstd::multiset::Multiset::empty());
            }
            assert(now.to_multiset() == before.to_multiset().insert(x@));
        }
    }
    proof {
        assert(orig.subrange(0, orig.len() as int) =~= orig);
        lemma_der_sorted_char(orig, views(out@));
    }
    out
}

/// Concatenates octet strings in order.
pub fn concat_all(xs: &Vec<Vec<u8>>) -> (r: Vec<u8>)
    ensures
        r@ == views(xs@).flatten(),
{
    let mut out = Vec::new();
    let mut i: usize = 0;
    while i < xs.len()
        invariant
            i <= xs.len(),
            out@ == views(xs@).subrange(0, i as int).flatten_alt(),
        decreases xs.len() - i,
    {
        crate::der::append_bytes(&mut out, xs[i].as_slice());
        proof {
            let s = views(xs@).subrange(0, i + 1);
            assert(s.drop_last() =~= views(xs@).subrange(0, i as int));
        }
        i = i + 1;
    }
    proof {
        assert(views(xs@).subrange(0, xs.len() as int) =~= views(xs@));
        views(xs@).lemma_flatten_and_flatten_alt_are_equivalent();
    }
    out
}

/// The contents octets of a DER SET OF with the given component encodings.
pub fn encode_set_of_content(xs: Vec<Vec<u8>>) -> (r: Vec<u8>)
    ensures
        r@ == set_of_content(views(xs@)),
{
    let sorted = sort_der(xs);
    concat_all(&sorted)
}

} // verus!
