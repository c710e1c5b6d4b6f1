//! DER length octets and tag-length-value framing (X.690, definite form).
use vstd::prelude::*;

verus! {

/// Largest length, plus one, that the framing accepts: 2^64.
pub open spec fn length_limit() -> nat {
    0x1_0000_0000_0000_0000
}

/// 256 raised to `k`.
pub open spec fn pow256(k: nat) -> nat
    decreases k,
{
    if k == 0 {
        1
    } else {
        256 * pow256((k - 1) as nat)
    }
}

/// Minimal big-endian bytes of a value (one byte for values below 256).
pub open spec fn be_min(n: nat) -> Seq<u8>
    decreases n,
{
    if n < 256 {
        seq![n as u8]
    } else {
        be_min(n / 256).push((n % 256) as u8)
    }
}

/// Value of big-endian bytes.
pub open spec fn be_value(b: Seq<u8>) -> nat
    decreases b.len(),
{
    if b.len() == 0 {
        0
    } else {
        be_value(b.drop_last()) * 256 + (b.last() as nat)
    }
}

/// DER length octets: the short form below 128, else the long form with the
/// fewest content bytes.
pub open spec fn length_octets(n: nat) -> Seq<u8> {
    if n < 128 {
        seq![n as u8]
    } else {
        seq![(0x80 + be_min(n).len()) as u8] + be_min(n)
    }
}

/// A tag that fits in one identifier octet.
pub open spec fn valid_tag(t: u8) -> bool {
    t % 32 != 31
}

/// The DER encoding of one value: identifier octet, length octets, contents.
pub open spec fn tlv(tag: u8, content: Seq<u8>) -> Seq<u8> {
    seq![tag] + length_octets(content.len()) + content
}

/// Reads DER length octets: the value and the number of octets read.
/// Indefinite, non-minimal and over-long (more than 8 octets) forms are refused.
pub open spec fn parse_length(s: Seq<u8>) -> Option<(nat, nat)> {
    if s.len() == 0 {
        None
    } else if s[0] < 0x80 {
        Some((s[0] as nat, 1))
    } else {
        let k = (s[0] - 0x80) as nat;
        if k == 0 || k > 8 || s.len() < 1 + k {
            None
        } else {
            let b = s.subrange(1, 1 + k as int);
            if b[0] == 0 || be_value(b) < 128 {
                None
            } else {
                Some((be_value(b), 1 + k))
            }
        }
    }
}

/// Reads one DER value at the start of `s`: its tag, its contents and what follows it.
pub open spec fn parse_tlv(s: Seq<u8>) -> Option<(u8, Seq<u8>, Seq<u8>)> {
    if s.len() == 0 || !valid_tag(s[0]) {
        None
    } else {
        match parse_length(s.drop_first()) {
            None => None,
            Some((n, k)) => if 1 + k + n <= s.len() {
                Some(
                    (
                        s[0],
                        s.subrange(1 + k as int, 1 + k + n as int),
                        s.subrange(1 + k + n as int, s.len() as int),
                    ),
                )
            } else {
                None
            },
        }
    }
}

/// `s` is exactly one complete DER value.
pub open spec fn is_element(s: Seq<u8>) -> bool {
    parse_tlv(s) matches Some((_, _, rest)) && rest.len() == 0
}

// ---------------------------------------------------------------- lemmas

proof fn lemma_be_value_be_min(n: nat)
    ensures
        be_value(be_min(n)) == n,
    decreases n,
{
    if n < 256 {
        assert(be_min(n).drop_last() =~= Seq::<u8>::empty());
        assert(be_min(n).last() == n as u8);
        assert((n as u8) as nat == n);
        assert(be_value(Seq::<u8>::empty()) == 0);
        assert(be_value(be_min(n)) == be_value(be_min(n).drop_last()) * 256 + (n as nat));
    } else {
        lemma_be_value_be_min(n / 256);
        assert(be_min(n).drop_last() =~= be_min(n / 256));
        assert(be_min(n).last() == (n % 256) as u8);
        assert(((n % 256) as u8) as nat == n % 256);
        assert(n == (n / 256) * 256 + n % 256);
        assert(be_value(be_min(n)) == be_value(be_min(n).drop_last()) * 256 + (n % 256));
    }
}

proof fn lemma_be_min_first_nonzero(n: nat)
    requires
        n > 0,
    ensures
        be_min(n).len() >= 1,
        be_min(n)[0] != 0,
    decreases n,
{
    if n >= 256 {
        lemma_be_min_first_nonzero(n / 256);
    }
}

proof fn lemma_be_min_len(n: nat, k: nat)
    requires
        n < pow256(k),
    ensures
        be_min(n).len() <= if k == 0 { 1 } else { k },
    decreases n,
{
    if n >= 256 {
        assert(k >= 2) by {
            if k == 1 {
                assert(pow256(1) == 256 * pow256(0));
            } else if k == 0 {
            }
        }
        assert(pow256(k) == 256 * pow256((k - 1) as nat));
        assert(n / 256 < pow256((k - 1) as nat));
        lemma_be_min_len(n / 256, (k - 1) as nat);
    }
}

proof fn lemma_pow256_8()
    ensures
        pow256(8) == length_limit(),
{
    reveal_with_fuel(pow256, 9);
}

/// The minimal big-endian form of a value below 2^64 has at most 8 bytes.
proof fn lemma_be_min_len_8(n: nat)
    requires
        n < length_limit(),
    ensures
        1 <= be_min(n).len() <= 8,
{
    lemma_pow256_8();
    lemma_be_min_len(n, 8);
}

proof fn lemma_be_value_bound(b: Seq<u8>)
    ensures
        be_value(b) < pow256(b.len()),
    decreases b.len(),
{
    if b.len() > 0 {
        lemma_be_value_bound(b.drop_last());
        assert(pow256(b.len()) == 256 * pow256(b.drop_last().len()));
    }
}

proof fn lemma_be_value_pos(b: Seq<u8>)
    requires
        b.len() >= 1,
        b[0] != 0,
    ensures
        be_value(b) >= pow256((b.len() - 1) as nat),
    decreases b.len(),
{
    if b.len() > 1 {
        lemma_be_value_pos(b.drop_last());
        assert(pow256((b.len() - 1) as nat) == 256 * pow256((b.len() - 2) as nat));
    }
}

proof fn lemma_be_min_be_value(b: Seq<u8>)
    requires
        b.len() >= 1,
        b[0] != 0,
    ensures
        be_min(be_value(b)) == b,
    decreases b.len(),
{
    let v = be_value(b);
    if b.len() == 1 {
        assert(b.drop_last() =~= Seq::<u8>::empty());
        assert(be_value(Seq::<u8>::empty()) == 0);
        assert(be_value(b.drop_last()) == 0);
        assert(v == b[0]);
        assert(be_min(v) =~= b);
    } else {
        let p = b.drop_last();
        lemma_be_value_pos(p);
        assert(pow256((p.len() - 1) as nat) >= 1) by {
            lemma_pow_pos((p.len() - 1) as nat);
        }
        assert(v >= 256);
        assert(v / 256 == be_value(p));
        assert(v % 256 == b.last());
        lemma_be_min_be_value(p);
        assert(be_min(v) =~= p.push(b.last()));
        assert(p.push(b.last()) =~= b);
    }
}

proof fn lemma_pow_pos(k: nat)
    ensures
        pow256(k) >= 1,
    decreases k,
{
    if k > 0 {
        lemma_pow_pos((k - 1) as nat);
    }
}

/// Reading the length octets of `n`, followed by anything, gives back `n`
/// and the number of octets written.
pub proof fn lemma_parse_length_octets(n: nat, rest: Seq<u8>)
    requires
        n < length_limit(),
    ensures
        parse_length(length_octets(n) + rest) == Some((n, length_octets(n).len())),
{
    let s = length_octets(n) + rest;
    if n < 128 {
        assert(s[0] == n as u8);
    } else {
        lemma_be_min_len_8(n);
        lemma_be_min_first_nonzero(n);
        lemma_be_value_be_min(n);
        let k = be_min(n).len();
        assert(s[0] == (0x80 + k) as u8);
        assert(s.subrange(1, 1 + k as int) =~= be_min(n));
    }
}

/// Length octets that parse are exactly the length octets of the value read.
pub proof fn lemma_parse_length_canonical(s: Seq<u8>)
    requires
        parse_length(s) is Some,
    ensures
        ({
            let (v, k) = parse_length(s).unwrap();
            &&& v < length_limit()
            &&& k <= s.len()
            &&& s.subrange(0, k as int) == length_octets(v)
        }),
{
    let (v, k) = parse_length(s).unwrap();
    if s[0] < 0x80 {
        assert(s.subrange(0, 1) =~= seq![s[0]]);
    } else {
        let b = s.subrange(1, k as int);
        lemma_be_value_bound(b);
        lemma_pow256_8();
        assert(pow256(b.len()) <= pow256(8)) by {
            lemma_pow_mono(b.len(), 8);
        }
        lemma_be_min_be_value(b);
        assert(s.subrange(0, k as int) =~= seq![s[0]] + b);
    }
}

proof fn lemma_pow_mono(a: nat, b: nat)
    requires
        a <= b,
    ensures
        pow256(a) <= pow256(b),
    decreases b,
{
    if a < b {
        lemma_pow_mono(a, (b - 1) as nat);
        lemma_pow_pos((b - 1) as nat);
    }
}

/// Reading the encoding of one value, followed by anything, gives back its
/// tag, its contents and what follows.
pub proof fn lemma_parse_tlv(tag: u8, content: Seq<u8>, rest: Seq<u8>)
    requires
        valid_tag(tag),
        content.len() < length_limit(),
    ensures
        parse_tlv(tlv(tag, content) + rest) == Some((tag, content, rest)),
{
    let s = tlv(tag, content) + rest;
    let lo = length_octets(content.len());
    assert(s.drop_first() =~= lo + (content + rest));
    lemma_parse_length_octets(content.len(), content + rest);
    let k = lo.len();
    assert(s.subrange(1 + k as int, 1 + k + content.len() as int) =~= content);
    assert(s.subrange(1 + k + content.len() as int, s.len() as int) =~= rest);
}

/// A value that parses is exactly the encoding of its tag and contents,
/// followed by what the parse left over.
pub proof fn lemma_parse_tlv_canonical(s: Seq<u8>)
    requires
        parse_tlv(s) is Some,
    ensures
        ({
            let (t, c, r) = parse_tlv(s).unwrap();
            &&& s == tlv(t, c) + r
            &&& valid_tag(t)
            &&& c.len() < length_limit()
            &&& r.len() < s.len()
        }),
{
    let (t, c, r) = parse_tlv(s).unwrap();
    let (n, k) = parse_length(s.drop_first()).unwrap();
    lemma_parse_length_canonical(s.drop_first());
    assert(s.drop_first().subrange(0, k as int) =~= s.subrange(1, 1 + k as int));
    assert(s =~= tlv(t, c) + r);
}

/// One complete value is an element.
pub proof fn lemma_tlv_is_element(tag: u8, content: Seq<u8>)
    requires
        valid_tag(tag),
        content.len() < length_limit(),
    ensures
        is_element(tlv(tag, content)),
{
    lemma_parse_tlv(tag, content, Seq::empty());
    assert(tlv(tag, content) + Seq::<u8>::empty() =~= tlv(tag, content));
}

/// An element followed by anything parses back to that element.
pub proof fn lemma_parse_element_prefix(e: Seq<u8>, rest: Seq<u8>)
    requires
        is_element(e),
    ensures
        parse_tlv(e + rest) matches Some((t, c, r)) && r == rest && e == tlv(t, c),
{
    lemma_parse_tlv_canonical(e);
    let (t, c, r0) = parse_tlv(e).unwrap();
    assert(e =~= tlv(t, c));
    lemma_parse_tlv(t, c, rest);
}

// ---------------------------------------------------------------- exec

/// Appends `src` to `out`.
pub fn append_bytes(out: &mut Vec<u8>, src: &[u8])
    ensures
        final(out)@ == old(out)@ + src@,
{
    let ghost start = out@;
    let mut i: usize = 0;
    while i < src.len()
        invariant
            i <= src.len(),
            out@ == start + src@.subrange(0, i as int),
        decreases src.len() - i,
    {
        out.push(src[i]);
        i = i + 1;
        assert(out@ =~= start + src@.subrange(0, i as int));
    }
    assert(src@.subrange(0, src.len() as int) =~= src@);
}

/// Encodes the minimal big-endian bytes of `n`.
pub fn encode_be_min(n: u64) -> (r: Vec<u8>)
    ensures
        r@ == be_min(n as nat),
    decreases n,
{
    if n < 256 {
        let mut v = Vec::new();
        v.push(n as u8);
        proof {
            assert(v@ =~= seq![n as u8]);
        }
        v
    } else {
        let mut v = encode_be_min(n / 256);
        v.push((n % 256) as u8);
        v
    }
}

/// Encodes the DER length octets of `n`.
pub fn encode_length(n: usize) -> (r: Vec<u8>)
    ensures
        r@ == length_octets(n as nat),
{
    if n < 128 {
        let mut v = Vec::new();
        v.push(n as u8);
        proof {
            assert(v@ =~= seq![n as u8]);
        }
        v
    } else {
        let b = encode_be_min(n as u64);
        proof {
            lemma_be_min_len_8(n as nat);
        }
        let mut v = Vec::new();
        v.push((0x80 + b.len()) as u8);
        append_bytes(&mut v, b.as_slice());
        proof {
            assert(v@ =~= length_octets(n as nat));
        }
        v
    }
}

/// Appends the encoding of one value with the given tag and contents to `out`.
pub fn push_tlv(out: &mut Vec<u8>, tag: u8, content: &[u8])
    ensures
        final(out)@ == old(out)@ + tlv(tag, content@),
{
    let ghost start = out@;
    out.push(tag);
    let len = encode_length(content.len());
    append_bytes(out, len.as_slice());
    append_bytes(out, content);
    proof {
        assert(out@ =~= start + tlv(tag, content@));
    }
}

/// The encoding of one value with the given tag and contents.
pub fn encode_tlv(tag: u8, content: &[u8]) -> (r: Vec<u8>)
    ensures
        r@ == tlv(tag, content@),
{
    let mut out = Vec::new();
    push_tlv(&mut out, tag, content);
    proof {
        assert(out@ =~= tlv(tag, content@));
    }
    out
}

/// Reads the DER value that starts at `pos` in the window `s[pos..end]`: its
/// tag and the bounds of its contents. What follows the value in the window
/// starts at the end bound of the contents.
pub fn parse_tlv_in(s: &[u8], pos: usize, end: usize) -> (r: Option<(u8, usize, usize)>)
    requires
        pos <= end <= s.len(),
    ensures
        match r {
            Some((t, cs, ce)) => {
                &&& pos < cs <= ce <= end
                &&& parse_tlv(s@.subrange(pos as int, end as int)) == Some(
                    (
                        t,
                        s@.subrange(cs as int, ce as int),
                        s@.subrange(ce as int, end as int),
                    ),
                )
            },
            None => parse_tlv(s@.subrange(pos as int, end as int)) is None,
        },
{
    let ghost w = s@.subrange(pos as int, end as int);
    if pos >= end {
        return None;
    }
    let tag = s[pos];
    if tag % 32 == 31 {
        return None;
    }
    if pos + 1 >= end {
        return None;
    }
    let first = s[pos + 1];
    let ghost l = w.drop_first();
    assert(l =~= s@.subrange(pos + 1, end as int));
    let mut len: u64;
    let hdr: usize;
    if first < 0x80 {
        len = first as u64;
        hdr = 2;
    } else {
        let k = (first - 0x80) as usize;
        if k == 0 || k > 8 || end - (pos + 1) < 1 + k {
            return None;
        }
        let ghost b = l.subrange(1, 1 + k as int);
        let mut v: u64 = 0;
        let mut i: usize = 0;
        while i < k
            invariant
                k <= 8,
                i <= k,
                pos + 2 + k <= end <= s.len(),
                b == s@.subrange(pos + 2, pos + 2 + k as int),
                v as nat == be_value(b.subrange(0, i as int)),
                v < pow256(i as nat),
            decreases k - i,
        {
            proof {
                assert(b.subrange(0, i + 1).drop_last() =~= b.subrange(0, i as int));
                lemma_pow_mono(i as nat, 7);
                reveal_with_fuel(pow256, 8);
                assert(pow256((i + 1) as nat) == 256 * pow256(i as nat));
            }
            v = v * 256 + s[pos + 2 + i] as u64;
            i = i + 1;
        }
        assert(b.subrange(0, k as int) =~= b);
        if s[pos + 2] == 0 || v < 128 {
            return None;
        }
        len = v;
        hdr = 2 + k;
    }
    assert(parse_length(l) == Some((len as nat, (hdr - 1) as nat)));
    if len > (end - pos - hdr) as u64 {
        return None;
    }
    let cs = pos + hdr;
    let ce = cs + len as usize;
    proof {
        assert(w.subrange(hdr as int, hdr + len as int) =~= s@.subrange(cs as int, ce as int));
        assert(w.subrange(hdr + len as int, w.len() as int) =~= s@.subrange(ce as int, end as int));
    }
    Some((tag, cs, ce))
}

/// Copies `s[start..end]`.
pub fn copy_range(s: &[u8], start: usize, end: usize) -> (r: Vec<u8>)
    requires
        start <= end <= s.len(),
    ensures
        r@ == s@.subrange(start as int, end as int),
{
    let mut out = Vec::new();
    let mut i = start;
    while i < end
        invariant
            start <= i <= end <= s.len(),
            out@ == s@.subrange(start as int, i as int),
        decreases end - i,
    {
        out.push(s[i]);
        i = i + 1;
        assert(out@ =~= s@.subrange(start as int, i as int));
    }
    out
}

/// Whether two octet strings are equal.
pub fn bytes_eq(a: &[u8], b: &[u8]) -> (r: bool)
    ensures
        r == (a@ == b@),
{
    if a.len() != b.len() {
        return false;
    }
    let mut i: usize = 0;
    while i < a.len()
        invariant
            i <= a.len() == b.len(),
            forall|k: int| 0 <= k < i ==> a@[k] == b@[k],
        decreases a.len() - i,
    {
        if a[i] != b[i] {
            return false;
        }
        i = i + 1;
    }
    assert(a@ =~= b@);
    true
}

// ---------------------------------------------------------------- element lists

/// Splits `s` into consecutive complete DER values (the contents of a
/// SEQUENCE OF or SET OF), each kept with its tag and length octets.
pub open spec fn parse_elements(s: Seq<u8>) -> Option<Seq<Seq<u8>>>
    decreases s.len(),
{
    if s.len() == 0 {
        Some(Seq::empty())
    } else {
        match parse_tlv(s) {
            None => None,
            Some((t, c, r)) => if r.len() < s.len() {
                match parse_elements(r) {
                    None => None,
                    Some(es) => Some(seq![s.subrange(0, s.len() - r.len())] + es),
                }
            } else {
                None
            },
        }
    }
}

/// Every value in the list is one complete DER value.
pub open spec fn all_elements(es: Seq<Seq<u8>>) -> bool {
    forall|i: int| 0 <= i < es.len() ==> is_element(#[trigger] es[i])
}

/// Splitting the concatenation of complete values gives back those values.
pub proof fn lemma_parse_elements_flatten(es: Seq<Seq<u8>>)
    requires
        all_elements(es),
    ensures
        parse_elements(es.flatten()) == Some(es),
    decreases es.len(),
{
    if es.len() == 0 {
    } else {
        let rest = es.drop_first();
        assert(all_elements(rest)) by {
            assert forall|i: int| 0 <= i < rest.len() implies is_element(#[trigger] rest[i]) by {
                assert(rest[i] == es[i + 1]);
            }
        }
        lemma_parse_elements_flatten(rest);
        let s = es.flatten();
        assert(s == es[0] + rest.flatten());
        assert(is_element(es[0]));
        lemma_parse_element_prefix(es[0], rest.flatten());
        assert(es[0].len() > 0);
        assert(s.subrange(0, s.len() - rest.flatten().len()) =~= es[0]);
        assert(seq![es[0]] + rest =~= es);
    }
}

/// What splits into values is the concatenation of those values, each one
/// complete.
pub proof fn lemma_parse_elements_sound(s: Seq<u8>)
    requires
        parse_elements(s) is Some,
    ensures
        all_elements(parse_elements(s).unwrap()),
        parse_elements(s).unwrap().flatten() == s,
    decreases s.len(),
{
    if s.len() > 0 {
        let (t, c, r) = parse_tlv(s).unwrap();
        lemma_parse_tlv_canonical(s);
        lemma_parse_elements_sound(r);
        let e = s.subrange(0, s.len() - r.len());
        assert(e =~= tlv(t, c));
        lemma_tlv_is_element(t, c);
        let es = parse_elements(s).unwrap();
        let rs = parse_elements(r).unwrap();
        assert(es == seq![e] + rs);
        assert(es.drop_first() =~= rs);
        assert(es[0] == e);
        assert(all_elements(es)) by {
            assert forall|i: int| 0 <= i < es.len() implies is_element(#[trigger] es[i]) by {
                if i > 0 {
                    assert(es[i] == rs[i - 1]);
                }
            }
        }
        assert(s =~= e + r);
    } else {
        assert(parse_elements(s).unwrap() =~= Seq::<Seq<u8>>::empty());
    }
}

/// Splits the window `s[start..end]` into consecutive complete DER values.
pub fn parse_elements_in(s: &[u8], start: usize, end: usize) -> (r: Option<Vec<Vec<u8>>>)
    requires
        start <= end <= s.len(),
    ensures
        match r {
            Some(v) => parse_elements(s@.subrange(start as int, end as int)) == Some(
                crate::order::views(v@),
            ),
            None => parse_elements(s@.subrange(start as int, end as int)) is None,
        },
{
    let mut out: Vec<Vec<u8>> = Vec::new();
    let mut pos = start;
    while pos < end
        invariant
            start <= pos <= end <= s.len(),
            parse_elements(s@.subrange(start as int, end as int)) == match parse_elements(
                s@.subrange(pos as int, end as int),
            ) {
                Some(es) => Some(crate::order::views(out@) + es),
                None => None,
            },
        decreases end - pos,
    {
        let ghost w = s@.subrange(pos as int, end as int);
        match parse_tlv_in(s, pos, end) {
            None => {
                return None;
            },
            Some((t, cs, ce)) => {
                let e = copy_range(s, pos, ce);
                proof {
                    assert(w.subrange(0, w.len() - (end - ce)) =~= e@);
                }
                let ghost before = crate::order::views(out@);
                out.push(e);
                proof {
                    assert(crate::order::views(out@) =~= before.push(e@));
                    match parse_elements(s@.subrange(ce as int, end as int)) {
                        Some(es) => {
                            assert(before + (seq![e@] + es) =~= before.push(e@) + es);
                        },
                        None => {},
                    }
                }
                pos = ce;
            },
        }
    }
    proof {
        assert(s@.subrange(pos as int, end as int) =~= Seq::<u8>::empty());
        assert(crate::order::views(out@) + Seq::<Seq<u8>>::empty() =~= crate::order::views(out@));
    }
    Some(out)
}

} // verus!
