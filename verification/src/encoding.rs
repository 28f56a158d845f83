//! UTF-8 lengths: how many bytes a text takes, and where its scalar values
//! begin.

use vstd::prelude::*;
use vstd::utf8::*;

verus! {

/// The number of bytes that `s` takes in UTF-8.
pub open spec fn byte_len(s: Seq<char>) -> nat {
    encode_utf8(s).len()
}

/// Encoding goes piece by piece.
pub proof fn lemma_encode_concat(a: Seq<char>, b: Seq<char>)
    ensures
        encode_utf8(a + b) == encode_utf8(a) + encode_utf8(b),
    decreases a.len(),
{
    if a.len() > 0 {
        assert((a + b).drop_first() =~= a.drop_first() + b);
        lemma_encode_concat(a.drop_first(), b);
    }
}

/// A scalar value takes between one and four bytes.
pub proof fn lemma_scalar_len(c: char)
    ensures
        1 <= encode_scalar(c as u32).len() <= 4,
        byte_len(seq![c]) == encode_scalar(c as u32).len(),
{
    let one = seq![c];
    assert(encode_utf8(one.drop_first()) =~= Seq::<u8>::empty());
}

/// The byte length of a concatenation is the sum of the byte lengths.
pub proof fn lemma_byte_len_concat(a: Seq<char>, b: Seq<char>)
    ensures
        byte_len(a + b) == byte_len(a) + byte_len(b),
{
    lemma_encode_concat(a, b);
}

/// Taking one more scalar value adds its encoded length.
pub proof fn lemma_byte_len_step(s: Seq<char>, k: int)
    requires
        0 <= k < s.len(),
    ensures
        byte_len(s.take(k + 1)) == byte_len(s.take(k)) + encode_scalar(s[k] as u32).len(),
{
    assert(s.take(k + 1) =~= s.take(k) + seq![s[k]]);
    lemma_byte_len_concat(s.take(k), seq![s[k]]);
    lemma_scalar_len(s[k]);
}

/// A prefix is no longer than the whole, in bytes, and a text has no more
/// scalar values than bytes.
pub proof fn lemma_byte_len_prefix(s: Seq<char>, k: int)
    requires
        0 <= k <= s.len(),
    ensures
        k <= byte_len(s.take(k)) <= byte_len(s),
    decreases k,
{
    assert(s =~= s.take(k) + s.skip(k));
    lemma_byte_len_concat(s.take(k), s.skip(k));
    if k > 0 {
        lemma_byte_len_prefix(s, k - 1);
        lemma_byte_len_step(s, k - 1);
    }
}

/// Byte lengths of prefixes grow with the prefix.
pub proof fn lemma_byte_len_monotone(s: Seq<char>, j: int, k: int)
    requires
        0 <= j <= k <= s.len(),
    ensures
        byte_len(s.take(j)) <= byte_len(s.take(k)),
        byte_len(s.take(k)) - byte_len(s.take(j)) == byte_len(s.subrange(j, k)),
{
    assert(s.take(k) =~= s.take(j) + s.subrange(j, k));
    lemma_byte_len_concat(s.take(j), s.subrange(j, k));
}

/// Two texts with the same encoding are the same text.
pub proof fn lemma_encode_injective(a: Seq<char>, b: Seq<char>)
    requires
        encode_utf8(a) == encode_utf8(b),
    ensures
        a == b,
{
    encode_utf8_decode_utf8(a);
    encode_utf8_decode_utf8(b);
}

/// The end of every prefix of scalar values is a character boundary of the
/// encoding.
pub proof fn lemma_prefix_boundary(s: Seq<char>, k: int)
    requires
        0 <= k <= s.len(),
    ensures
        is_char_boundary(encode_utf8(s), byte_len(s.take(k)) as int),
    decreases k,
{
    let bytes = encode_utf8(s);
    encode_utf8_valid_utf8(s);
    if k > 0 {
        let rest = s.drop_first();
        encode_utf8_first_scalar(s);
        assert(pop_first_scalar(bytes) =~= encode_utf8(rest));
        assert(s.take(k) =~= seq![s[0]] + rest.take(k - 1));
        lemma_byte_len_concat(seq![s[0]], rest.take(k - 1));
        lemma_scalar_len(s[0]);
        lemma_prefix_boundary(rest, k - 1);
    }
}

/// A text that is held in memory has no more bytes than `usize` can count.
pub(crate) fn in_memory(text: &str)
    ensures
        byte_len(text@) <= usize::MAX,
{
    let _count: usize = text.as_bytes().len();
}

/// The length in bytes of the UTF-8 encoding of `c`.
pub fn utf8_width(c: char) -> (w: usize)
    ensures
        w == encode_scalar(c as u32).len(),
        1 <= w <= 4,
{
    let v: u32 = c as u32;
    if v < 0x80 {
        1
    } else if v < 0x800 {
        2
    } else if v < 0x10000 {
        3
    } else {
        4
    }
}

/// Cuts `s` after its first `k` scalar values, which take `at` bytes.
pub(crate) fn split_text<'a>(s: &'a str, at: usize, Ghost(k): Ghost<int>) -> (r: (
    &'a str,
    &'a str,
))
    requires
        0 <= k <= s@.len(),
        at == byte_len(s@.take(k)),
    ensures
        r.0@ == s@.take(k),
        r.1@ == s@.skip(k),
{
    proof {
        lemma_prefix_boundary(s@, k);
    }
    let r = s.split_at(at);
    proof {
        let bytes = encode_utf8(s@);
        assert(s@ =~= s@.take(k) + s@.skip(k));
        lemma_encode_concat(s@.take(k), s@.skip(k));
        assert(bytes.subrange(0, at as int) =~= encode_utf8(s@.take(k)));
        assert(bytes.subrange(at as int, bytes.len() as int) =~= encode_utf8(s@.skip(k)));
        lemma_encode_injective(r.0@, s@.take(k));
        lemma_encode_injective(r.1@, s@.skip(k));
    }
    r
}

/// The bytes of a prefix are the bytes up to some place and the bytes from
/// there on.
pub proof fn lemma_byte_len_skip_take(text: Seq<char>, a: int, m: int)
    requires
        0 <= a,
        0 <= m,
        a + m <= text.len(),
    ensures
        byte_len(text.take(a + m)) == byte_len(text.take(a)) + byte_len(text.skip(a).take(m)),
        byte_len(text.take(a + m)) <= byte_len(text),
{
    assert(text.skip(a).take(m) =~= text.subrange(a, a + m));
    lemma_byte_len_monotone(text, a, a + m);
    lemma_byte_len_prefix(text, a + m);
}

} // verus!
