//! Cutting a string slice at a character position.
//!
//! A `&str` is addressed by byte offsets. The functions here keep the byte
//! offset that belongs to a character position, so that a slice can be cut
//! in constant time and its characters are still known.

use vstd::prelude::*;
use vstd::utf8::*;

verus! {

/// The number of bytes that the UTF-8 encoding of `s` takes.
pub open spec fn byte_len(s: Seq<char>) -> nat {
    encode_utf8(s).len()
}

/// The encoding of a concatenation is the concatenation of the encodings.
pub proof fn lemma_encode_concat(a: Seq<char>, b: Seq<char>)
    ensures
        encode_utf8(a + b) == encode_utf8(a) + encode_utf8(b),
    decreases a.len(),
{
    if a.len() == 0 {
        assert(a + b =~= b);
        assert(encode_utf8(a) + encode_utf8(b) =~= encode_utf8(b));
    } else {
        assert((a + b).drop_first() =~= a.drop_first() + b);
        lemma_encode_concat(a.drop_first(), b);
        assert(encode_utf8(a + b) =~= encode_utf8(a) + encode_utf8(b));
    }
}

/// A character takes between one and four bytes.
pub proof fn lemma_scalar_width(c: char)
    ensures
        1 <= encode_scalar(c as u32).len() <= 4,
{
}

/// The bytes of the first `k + 1` characters are those of the first `k` and of the next one.
pub proof fn lemma_byte_len_step(s: Seq<char>, k: int)
    requires
        0 <= k < s.len(),
    ensures
        byte_len(s.subrange(0, k + 1)) == byte_len(s.subrange(0, k)) + encode_scalar(
            s[k] as u32,
        ).len(),
{
    let a = s.subrange(0, k);
    let b = seq![s[k]];
    assert(s.subrange(0, k + 1) =~= a + b);
    lemma_encode_concat(a, b);
    assert(b.drop_first() =~= Seq::<char>::empty());
    assert(encode_utf8(b) =~= encode_scalar(s[k] as u32)) by {
        reveal_with_fuel(encode_utf8, 2);
    }
}

/// A prefix takes no more bytes than the whole.
pub proof fn lemma_byte_len_prefix(s: Seq<char>, k: int)
    requires
        0 <= k <= s.len(),
    ensures
        byte_len(s.subrange(0, k)) <= byte_len(s),
{
    let a = s.subrange(0, k);
    let b = s.subrange(k, s.len() as int);
    assert(s =~= a + b);
    lemma_encode_concat(a, b);
}

/// A suffix takes no more bytes than the whole.
pub proof fn lemma_byte_len_suffix(s: Seq<char>, k: int)
    requires
        0 <= k <= s.len(),
    ensures
        byte_len(s.subrange(k, s.len() as int)) <= byte_len(s),
{
    let a = s.subrange(0, k);
    let b = s.subrange(k, s.len() as int);
    assert(s =~= a + b);
    lemma_encode_concat(a, b);
}

/// The end of an encoded prefix is a character boundary of the whole encoding.
pub proof fn lemma_boundary_after_prefix(a: Seq<char>, b: Seq<char>)
    ensures
        is_char_boundary(encode_utf8(a + b), encode_utf8(a).len() as int),
    decreases a.len(),
{
    broadcast use encode_utf8_valid_utf8;

    let whole = a + b;
    let bytes = encode_utf8(whole);
    if a.len() > 0 {
        encode_utf8_first_scalar(whole);
        assert(pop_first_scalar(bytes) =~= encode_utf8(whole.drop_first()));
        assert(whole.drop_first() =~= a.drop_first() + b);
        lemma_boundary_after_prefix(a.drop_first(), b);
        lemma_encode_concat(a, b);
        lemma_scalar_width(a[0]);
    }
}

/// The number of bytes that the UTF-8 encoding of a character takes.
pub fn utf8_width(c: char) -> (width: usize)
    ensures
        width == encode_scalar(c as u32).len(),
        1 <= width <= 4,
{
    let v: u32 = c as u32;
    if v < 0x80 {
        1
    } else if v < 0x800 {
        2
    } else if v < 0x10000 {
        3
    } else {
        4
    }
}

/// Cuts a slice after its first `k` characters, which take `width` bytes.
pub(crate) fn split_chars<'a>(s: &'a str, Ghost(k): Ghost<int>, width: usize) -> (parts: (
    &'a str,
    &'a str,
))
    requires
        0 <= k <= s@.len(),
        width == byte_len(s@.subrange(0, k)),
    ensures
        parts.0@ == s@.subrange(0, k),
        parts.1@ == s@.subrange(k, s@.len() as int),
{
    let ghost a = s@.subrange(0, k);
    let ghost b = s@.subrange(k, s@.len() as int);
    proof {
        assert(s@ =~= a + b);
        lemma_boundary_after_prefix(a, b);
        lemma_encode_concat(a, b);
    }
    let parts = s.split_at(width);
    proof {
        assert(encode_utf8(parts.0@) =~= encode_utf8(a));
        assert(encode_utf8(parts.1@) =~= encode_utf8(b));
        encode_utf8_decode_utf8(parts.0@);
        encode_utf8_decode_utf8(parts.1@);
        encode_utf8_decode_utf8(a);
        encode_utf8_decode_utf8(b);
    }
    parts
}

} // verus!
