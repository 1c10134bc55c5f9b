//! Cutting a text behind a number of characters.
//!
//! A `&str` is cut at a byte offset, while the contracts of this crate count characters. The
//! scanners therefore keep, beside the characters they have read, the number of bytes that
//! these take, and cut there.

use vstd::prelude::*;
use vstd::utf8::{
    encode_scalar, encode_utf8, encode_utf8_decode_utf8, encode_utf8_first_scalar,
    encode_utf8_valid_utf8, is_char_boundary, pop_first_scalar,
};

verus! {

/// The number of bytes that the first `n` characters of `s` take in UTF-8.
pub open spec fn byte_offset(s: Seq<char>, n: int) -> nat {
    encode_utf8(s.take(n)).len()
}

/// The encoding of a text is the encoding of its front followed by that of its back.
pub proof fn lemma_encode_concat(front: Seq<char>, back: Seq<char>)
    ensures
        encode_utf8(front + back) == encode_utf8(front) + encode_utf8(back),
    decreases front.len(),
{
    if front.len() > 0 {
        lemma_encode_concat(front.drop_first(), back);
        assert((front + back).drop_first() =~= front.drop_first() + back);
    }
}

/// One more character moves the byte offset on by the width of that character, and no
/// offset lies behind the end of the encoded text.
pub proof fn lemma_byte_offset_step(s: Seq<char>, n: int)
    requires
        0 <= n < s.len(),
    ensures
        byte_offset(s, n + 1) == byte_offset(s, n) + encode_scalar(s[n] as u32).len(),
        byte_offset(s, n + 1) <= encode_utf8(s).len(),
        byte_offset(s, 0) == 0,
{
    let one = seq![s[n]];
    assert(s.take(n + 1) =~= s.take(n) + one);
    lemma_encode_concat(s.take(n), one);
    assert(encode_utf8(one.drop_first()) =~= Seq::<u8>::empty());
    assert(s =~= s.take(n + 1) + s.skip(n + 1));
    lemma_encode_concat(s.take(n + 1), s.skip(n + 1));
}

/// The byte offset of a number of characters is a character boundary of the encoded text.
pub proof fn lemma_byte_offset_is_boundary(s: Seq<char>, n: int)
    requires
        0 <= n <= s.len(),
    ensures
        is_char_boundary(encode_utf8(s), byte_offset(s, n) as int),
    decreases n,
{
    encode_utf8_valid_utf8(s);
    if n > 0 {
        let bytes = encode_utf8(s);
        let tail = s.drop_first();
        encode_utf8_first_scalar(s);
        assert(pop_first_scalar(bytes) =~= encode_utf8(tail));
        lemma_byte_offset_is_boundary(tail, n - 1);
        assert(s.take(n).drop_first() =~= tail.take(n - 1));
    }
}

/// Only the whole text has the byte offset of the whole text, and only no text has none.
pub proof fn lemma_byte_offset_ends(s: Seq<char>, n: int)
    requires
        0 <= n <= s.len(),
    ensures
        byte_offset(s, n) == 0 <==> n == 0,
        byte_offset(s, n) == encode_utf8(s).len() <==> n == s.len(),
{
    assert(s.take(s.len() as int) =~= s);
    if n < s.len() {
        lemma_byte_offset_step(s, n);
    }
}

/// The length of `text` in bytes.
pub fn byte_len(text: &str) -> (len: usize)
    ensures
        len == encode_utf8(text@).len(),
{
    text.as_bytes().len()
}

/// The number of bytes that `c` takes in UTF-8.
pub fn utf8_width(c: char) -> (width: usize)
    ensures
        width == encode_scalar(c as u32).len(),
        1 <= width <= 4,
{
    let code = c as u32;
    if code < 0x80 {
        1
    } else if code < 0x800 {
        2
    } else if code < 0x1_0000 {
        3
    } else {
        4
    }
}

/// Cuts `text` behind its first `n` characters, which take `offset` bytes.
pub fn split_behind<'a>(text: &'a str, Ghost(n): Ghost<int>, offset: usize) -> (parts: (
    &'a str,
    &'a str,
))
    requires
        0 <= n <= text@.len(),
        offset == byte_offset(text@, n),
    ensures
        parts.0@ == text@.take(n),
        parts.1@ == text@.skip(n),
{
    proof {
        lemma_byte_offset_is_boundary(text@, n);
    }
    let parts = text.split_at(offset);
    proof {
        let bytes = encode_utf8(text@);
        assert(text@ =~= text@.take(n) + text@.skip(n));
        lemma_encode_concat(text@.take(n), text@.skip(n));
        assert(bytes.subrange(0, offset as int) =~= encode_utf8(text@.take(n)));
        assert(bytes.subrange(offset as int, bytes.len() as int) =~= encode_utf8(text@.skip(n)));
        encode_utf8_decode_utf8(parts.0@);
        encode_utf8_decode_utf8(parts.1@);
        encode_utf8_decode_utf8(text@.take(n));
        encode_utf8_decode_utf8(text@.skip(n));
    }
    parts
}

} // verus!
