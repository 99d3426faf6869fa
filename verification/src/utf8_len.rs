//! Facts about the UTF-8 encoding of text: byte lengths and ASCII bytes.

use vstd::prelude::*;
use vstd::utf8::{
    encode_scalar, encode_utf8, has_width_1_encoding, last_continuation_byte, leading_byte_width_1,
    leading_byte_width_2, leading_byte_width_3, leading_byte_width_4,
    second_last_continuation_byte, third_last_continuation_byte,
};

verus! {

/// Number of bytes in the UTF-8 encoding of `s` (what `str::len` counts).
pub open spec fn utf8_len(s: Seq<char>) -> nat {
    encode_utf8(s).len()
}

/// Encoding a concatenation concatenates the encodings.
pub proof fn lemma_encode_utf8_concat(a: Seq<char>, b: Seq<char>)
    ensures
        encode_utf8(a + b) == encode_utf8(a) + encode_utf8(b),
    decreases a.len(),
{
    if a.len() == 0 {
        assert(a + b =~= b);
        assert(encode_utf8(a) =~= Seq::<u8>::empty());
        assert(encode_utf8(a) + encode_utf8(b) =~= encode_utf8(b));
    } else {
        assert((a + b).drop_first() =~= a.drop_first() + b);
        assert((a + b)[0] == a[0]);
        lemma_encode_utf8_concat(a.drop_first(), b);
        assert(encode_utf8(a + b) =~= encode_scalar(a[0] as u32) + (encode_utf8(a.drop_first())
            + encode_utf8(b)));
        assert(encode_utf8(a) + encode_utf8(b) =~= encode_scalar(a[0] as u32) + (encode_utf8(
            a.drop_first(),
        ) + encode_utf8(b)));
    }
}

/// The encoded length of a concatenation is the sum of the encoded lengths.
pub proof fn lemma_utf8_len_concat(a: Seq<char>, b: Seq<char>)
    ensures
        utf8_len(a + b) == utf8_len(a) + utf8_len(b),
{
    lemma_encode_utf8_concat(a, b);
}

/// Every character takes one to four bytes.
pub proof fn lemma_utf8_len_bounds(s: Seq<char>)
    ensures
        s.len() <= utf8_len(s) <= 4 * s.len(),
    decreases s.len(),
{
    if s.len() > 0 {
        lemma_utf8_len_bounds(s.drop_first());
    }
}

/// A newline is one byte.
pub proof fn lemma_utf8_len_newline()
    ensures
        utf8_len(seq!['\n']) == 1,
{
    let s = seq!['\n'];
    assert(s.drop_first() =~= Seq::<char>::empty());
    assert(s[0] as u32 == 10);
    assert(encode_utf8(s.drop_first()) =~= Seq::<u8>::empty());
    assert(encode_scalar(s[0] as u32).len() == 1);
}

proof fn lemma_multibyte_encoding_high_bytes(c: u32)
    requires
        !has_width_1_encoding(c),
    ensures
        forall|k: int| 0 <= k < encode_scalar(c).len() ==> #[trigger] encode_scalar(c)[k] >= 0x80,
{
    assert(leading_byte_width_2(c) >= 0x80) by (bit_vector);
    assert(leading_byte_width_3(c) >= 0x80) by (bit_vector);
    assert(leading_byte_width_4(c) >= 0x80) by (bit_vector);
    assert(last_continuation_byte(c) >= 0x80) by (bit_vector);
    assert(second_last_continuation_byte(c) >= 0x80) by (bit_vector);
    assert(third_last_continuation_byte(c) >= 0x80) by (bit_vector);
}

/// The encoding of `s` starts with the encoding of its first character.
pub proof fn lemma_encode_utf8_first(s: Seq<char>)
    requires
        s.len() > 0,
    ensures
        encode_utf8(s) == encode_scalar(s[0] as u32) + encode_utf8(s.drop_first()),
        (s[0] as u32) < 0x80 ==> encode_utf8(s)[0] == s[0] as u32,
        (s[0] as u32) >= 0x80 ==> encode_utf8(s)[0] >= 0x80,
{
    let c = s[0] as u32;
    if c < 0x80 {
        assert(leading_byte_width_1(c) == c) by (bit_vector)
            requires
                c < 0x80,
        ;
    } else {
        lemma_multibyte_encoding_high_bytes(c);
        assert(encode_scalar(c)[0] >= 0x80);
    }
}

/// An ASCII byte in the encoding of `s` is one of the characters of `s`.
pub proof fn lemma_ascii_byte_is_char(s: Seq<char>, i: int)
    requires
        0 <= i < encode_utf8(s).len(),
        encode_utf8(s)[i] < 0x80,
    ensures
        exists|j: int| 0 <= j < s.len() && s[j] as u32 == encode_utf8(s)[i] as u32,
    decreases s.len(),
{
    if s.len() == 0 {
        assert(encode_utf8(s).len() == 0);
    } else {
        lemma_encode_utf8_first(s);
        let c = s[0] as u32;
        let e0 = encode_scalar(c);
        if i < e0.len() {
            if has_width_1_encoding(c) {
                assert(leading_byte_width_1(c) == c) by (bit_vector)
                    requires
                        c < 0x80,
                ;
                assert(s[0] as u32 == encode_utf8(s)[i] as u32);
            } else {
                lemma_multibyte_encoding_high_bytes(c);
                assert(encode_utf8(s)[i] == e0[i]);
            }
        } else {
            let rest = s.drop_first();
            assert(encode_utf8(s)[i] == encode_utf8(rest)[i - e0.len()]);
            lemma_ascii_byte_is_char(rest, i - e0.len());
            let j = choose|j: int|
                0 <= j < rest.len() && rest[j] as u32 == encode_utf8(rest)[i - e0.len()] as u32;
            assert(s[j + 1] == rest[j]);
        }
    }
}

} // verus!
