//! The order names are kept in: the byte order of their UTF-8 encoding, which
//! is the order Rust's `str` compares in.
use vstd::prelude::*;
use vstd::utf8::{encode_utf8, encode_utf8_decode_utf8};
use vstd::string::StringSliceAdditionalSpecFns;

verus! {

/// Strict lexicographic order on byte strings; a proper prefix comes first.
pub open spec fn bytes_lt(a: Seq<u8>, b: Seq<u8>) -> bool
    decreases a.len(),
{
    if a.len() == 0 {
        b.len() > 0
    } else if b.len() == 0 {
        false
    } else if a[0] < b[0] {
        true
    } else if a[0] > b[0] {
        false
    } else {
        bytes_lt(a.drop_first(), b.drop_first())
    }
}

/// The order of two names: that of their UTF-8 bytes.
pub open spec fn name_lt(a: Seq<char>, b: Seq<char>) -> bool {
    bytes_lt(encode_utf8(a), encode_utf8(b))
}

/// A sequence of names in strictly increasing order, hence without repeats.
pub open spec fn names_sorted(names: Seq<Seq<char>>) -> bool {
    forall|i: int, j: int| 0 <= i < j < names.len() ==> name_lt(#[trigger] names[i], #[trigger] names[j])
}

pub proof fn lemma_bytes_lt_irreflexive(a: Seq<u8>)
    ensures
        !bytes_lt(a, a),
    decreases a.len(),
{
    if a.len() > 0 {
        lemma_bytes_lt_irreflexive(a.drop_first());
    }
}

pub proof fn lemma_bytes_lt_transitive(a: Seq<u8>, b: Seq<u8>, c: Seq<u8>)
    requires
        bytes_lt(a, b),
        bytes_lt(b, c),
    ensures
        bytes_lt(a, c),
    decreases a.len(),
{
    if a.len() > 0 && b.len() > 0 && c.len() > 0 {
        if a[0] == b[0] && b[0] == c[0] {
            lemma_bytes_lt_transitive(a.drop_first(), b.drop_first(), c.drop_first());
        }
    }
}

pub proof fn lemma_bytes_lt_total(a: Seq<u8>, b: Seq<u8>)
    requires
        a != b,
    ensures
        bytes_lt(a, b) || bytes_lt(b, a),
    decreases a.len(),
{
    if a.len() > 0 && b.len() > 0 && a[0] == b[0] {
        if a.drop_first() == b.drop_first() {
            assert(a =~= seq![a[0]] + a.drop_first());
            assert(b =~= seq![b[0]] + b.drop_first());
        }
        lemma_bytes_lt_total(a.drop_first(), b.drop_first());
    } else if a.len() == 0 && b.len() == 0 {
        assert(a =~= b);
    }
}

pub proof fn lemma_bytes_lt_asymmetric(a: Seq<u8>, b: Seq<u8>)
    requires
        bytes_lt(a, b),
    ensures
        !bytes_lt(b, a),
{
    if bytes_lt(b, a) {
        lemma_bytes_lt_transitive(a, b, a);
        lemma_bytes_lt_irreflexive(a);
    }
}

/// Distinct names have distinct encodings.
pub proof fn lemma_encoding_injective(a: Seq<char>, b: Seq<char>)
    requires
        encode_utf8(a) == encode_utf8(b),
    ensures
        a == b,
{
    encode_utf8_decode_utf8(a);
    encode_utf8_decode_utf8(b);
}

pub proof fn lemma_name_lt_irreflexive(a: Seq<char>)
    ensures
        !name_lt(a, a),
{
    lemma_bytes_lt_irreflexive(encode_utf8(a));
}

pub proof fn lemma_name_lt_transitive(a: Seq<char>, b: Seq<char>, c: Seq<char>)
    requires
        name_lt(a, b),
        name_lt(b, c),
    ensures
        name_lt(a, c),
{
    lemma_bytes_lt_transitive(encode_utf8(a), encode_utf8(b), encode_utf8(c));
}

pub proof fn lemma_name_lt_asymmetric(a: Seq<char>, b: Seq<char>)
    requires
        name_lt(a, b),
    ensures
        !name_lt(b, a),
        a != b,
{
    lemma_bytes_lt_asymmetric(encode_utf8(a), encode_utf8(b));
    lemma_bytes_lt_irreflexive(encode_utf8(a));
}

/// Two different names are ordered one way or the other.
pub proof fn lemma_name_lt_total(a: Seq<char>, b: Seq<char>)
    requires
        a != b,
    ensures
        name_lt(a, b) || name_lt(b, a),
{
    if encode_utf8(a) == encode_utf8(b) {
        lemma_encoding_injective(a, b);
    }
    lemma_bytes_lt_total(encode_utf8(a), encode_utf8(b));
}

/// Whether `a` comes strictly before `b` in byte order.
pub fn bytes_less(a: &[u8], b: &[u8]) -> (r: bool)
    ensures
        r == bytes_lt(a@, b@),
{
    let mut i: usize = 0;
    proof {
        assert(a@.skip(0) =~= a@);
        assert(b@.skip(0) =~= b@);
    }
    while i < a.len() && i < b.len()
        invariant
            i <= a@.len(),
            i <= b@.len(),
            bytes_lt(a@, b@) == bytes_lt(a@.skip(i as int), b@.skip(i as int)),
        decreases a.len() - i,
    {
        if a[i] < b[i] {
            return true;
        }
        if a[i] > b[i] {
            return false;
        }
        proof {
            assert(a@.skip(i as int).drop_first() =~= a@.skip(i + 1));
            assert(b@.skip(i as int).drop_first() =~= b@.skip(i + 1));
        }
        i = i + 1;
    }
    i < b.len()
}

/// Whether the name `a` comes strictly before the name `b`.
pub fn text_less(a: &str, b: &str) -> (r: bool)
    ensures
        r == name_lt(a@, b@),
{
    bytes_less(a.as_bytes(), b.as_bytes())
}

/// Whether two texts are the same.
pub fn text_eq(a: &str, b: &str) -> (r: bool)
    ensures
        r == (a@ == b@),
{
    let x = a.as_bytes();
    let y = b.as_bytes();
    if x.len() != y.len() {
        proof {
            if a@ == b@ {
                assert(x@ == y@);
            }
        }
        return false;
    }
    let mut i: usize = 0;
    while i < x.len()
        invariant
            i <= x@.len(),
            x@.len() == y@.len(),
            x@ == encode_utf8(a@),
            y@ == encode_utf8(b@),
            forall|k: int| 0 <= k < i ==> x@[k] == y@[k],
        decreases x.len() - i,
    {
        if x[i] != y[i] {
            return false;
        }
        i = i + 1;
    }
    proof {
        assert(x@ =~= y@);
        lemma_encoding_injective(a@, b@);
    }
    true
}

} // verus!

verus! {

/// Whether two byte strings are the same.
pub fn bytes_equal(a: &[u8], b: &[u8]) -> (r: bool)
    ensures
        r == (a@ == b@),
{
    if a.len() != b.len() {
        return false;
    }
    let mut i: usize = 0;
    while i < a.len()
        invariant
            i <= a@.len(),
            a@.len() == b@.len(),
            forall|k: int| 0 <= k < i ==> a@[k] == b@[k],
        decreases a.len() - i,
    {
        if a[i] != b[i] {
            return false;
        }
        i = i + 1;
    }
    proof {
        assert(a@ =~= b@);
    }
    true
}

} // verus!

verus! {

/// Encoding a concatenation concatenates the encodings.
pub proof fn lemma_encode_concat(a: Seq<char>, b: Seq<char>)
    ensures
        encode_utf8(a + b) == encode_utf8(a) + encode_utf8(b),
    decreases a.len(),
{
    if a.len() > 0 {
        assert((a + b).drop_first() =~= a.drop_first() + b);
        lemma_encode_concat(a.drop_first(), b);
        assert((a + b)[0] == a[0]);
        assert(encode_utf8(a + b) =~= encode_utf8(a) + encode_utf8(b));
    } else {
        assert(a + b =~= b);
        assert(encode_utf8(a) =~= Seq::<u8>::empty());
        assert(encode_utf8(a) + encode_utf8(b) =~= encode_utf8(b));
    }
}

pub proof fn lemma_encode_scalar_nonempty(c: char)
    ensures
        1 <= vstd::utf8::encode_scalar(c as u32).len() <= 4,
{
    vstd::utf8::char_is_scalar(c);
}

/// The end of an encoded prefix is a character boundary.
pub proof fn lemma_boundary_after_prefix(a: Seq<char>, b: Seq<char>)
    ensures
        vstd::utf8::is_char_boundary(encode_utf8(a + b), encode_utf8(a).len() as int),
    decreases a.len(),
{
    vstd::utf8::encode_utf8_valid_utf8(a + b);
    if a.len() > 0 {
        let bytes = encode_utf8(a + b);
        lemma_encode_scalar_nonempty(a[0]);
        vstd::utf8::encode_utf8_first_scalar(a + b);
        assert((a + b)[0] == a[0]);
        assert((a + b).drop_first() =~= a.drop_first() + b);
        lemma_encode_concat(a.drop_first(), b);
        assert(vstd::utf8::pop_first_scalar(bytes) =~= encode_utf8(a.drop_first() + b));
        lemma_boundary_after_prefix(a.drop_first(), b);
        lemma_encode_concat(a, b);
    }
}

/// The bytes a UTF-8 sequence's first character takes, read from its first
/// byte.
fn leading_width(b: u8) -> (w: usize)
    ensures
        w == (if vstd::utf8::is_leading_byte_width_1(b) {
            1int
        } else if vstd::utf8::is_leading_byte_width_2(b) {
            2
        } else if vstd::utf8::is_leading_byte_width_3(b) {
            3
        } else {
            4
        }),
{
    if b <= 0x7f {
        1
    } else if 0xc0 <= b && b <= 0xdf {
        2
    } else if 0xe0 <= b && b <= 0xef {
        3
    } else {
        4
    }
}

/// At most the first `n` characters of a text.
pub fn truncated(s: &str, n: usize) -> (r: String)
    ensures
        r@ == s@.take(if n < s@.len() { n as int } else { s@.len() as int }),
{
    let bytes = s.as_bytes();
    let ghost chars = s@;
    let mut k: usize = 0;
    let mut idx: usize = 0;
    proof {
        assert(chars.take(0) =~= Seq::<char>::empty());
        assert(chars.skip(0) =~= chars);
        assert(bytes@.subrange(0, bytes@.len() as int) =~= bytes@);
    }
    while k < n && idx < bytes.len()
        invariant
            bytes@ == encode_utf8(chars),
            k <= chars.len(),
            k <= n,
            idx as int == encode_utf8(chars.take(k as int)).len(),
            bytes@.subrange(idx as int, bytes@.len() as int) == encode_utf8(chars.skip(k as int)),
            idx <= bytes@.len(),
        decreases bytes.len() - idx,
    {
        let ghost rest = chars.skip(k as int);
        proof {
            if rest.len() == 0 {
                assert(encode_utf8(rest) =~= Seq::<u8>::empty());
                assert(bytes@.subrange(idx as int, bytes@.len() as int).len() == 0);
            }
            assert(rest.len() > 0);
            vstd::utf8::encode_utf8_first_scalar(rest);
            lemma_encode_scalar_nonempty(rest[0]);
            assert(rest[0] == chars[k as int]);
            assert(rest.drop_first() =~= chars.skip(k + 1));
            assert(bytes@[idx as int] == encode_utf8(rest)[0]);
        }
        let w = leading_width(bytes[idx]);
        proof {
            assert(w == vstd::utf8::length_of_first_scalar(encode_utf8(rest)));
            assert(chars.take(k + 1) =~= chars.take(k as int) + seq![chars[k as int]]);
            lemma_encode_concat(chars.take(k as int), seq![chars[k as int]]);
            assert(seq![chars[k as int]].drop_first() =~= Seq::<char>::empty());
            assert(encode_utf8(Seq::<char>::empty()) =~= Seq::<u8>::empty());
            assert(encode_utf8(seq![chars[k as int]]) =~= vstd::utf8::encode_scalar(chars[k as int] as u32));
            assert(encode_utf8(rest) =~= vstd::utf8::encode_scalar(chars[k as int] as u32) + encode_utf8(chars.skip(k + 1)));
            assert(bytes@.subrange((idx + w) as int, bytes@.len() as int) =~= encode_utf8(rest).subrange(
                w as int,
                encode_utf8(rest).len() as int,
            ));
            assert(encode_utf8(rest).subrange(w as int, encode_utf8(rest).len() as int) =~= encode_utf8(chars.skip(k + 1)));
        }
        idx = idx + w;
        k = k + 1;
    }
    let ghost m: int = if n < chars.len() { n as int } else { chars.len() as int };
    proof {
        if k < n {
            assert(idx == bytes@.len());
            if k < chars.len() {
                lemma_encode_scalar_nonempty(chars[k as int]);
                assert(chars.skip(k as int)[0] == chars[k as int]);
                assert(encode_utf8(chars.skip(k as int)).len() > 0);
            }
        }
        assert(k == m);
        assert(chars =~= chars.take(m) + chars.skip(m));
        lemma_boundary_after_prefix(chars.take(m), chars.skip(m));
        lemma_encode_concat(chars.take(m), chars.skip(m));
    }
    let (head, _) = s.split_at(idx);
    proof {
        assert(head.spec_bytes() =~= encode_utf8(chars.take(m)));
        lemma_encoding_injective(head@, chars.take(m));
    }
    head.to_owned()
}

} // verus!
