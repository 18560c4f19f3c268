//! Stretches of a text, given by byte offsets.
use vstd::prelude::*;
use vstd::string::*;
use vstd::utf8::{
    decode_utf8, decode_utf8_encode_utf8, decode_utf8_split, encode_utf8, encode_utf8_decode_utf8,
    encode_utf8_valid_utf8,
    is_char_boundary, is_char_boundary_iff_not_is_continuation_byte,
    is_char_boundary_start_end_of_seq, valid_utf8_split,
};

verus! {

/// The offsets `a` and `b` bound a stretch of whole characters of `text`.
pub open spec fn bounds_stretch(text: Seq<char>, a: int, b: int) -> bool {
    &&& 0 <= a <= b <= encode_utf8(text).len()
    &&& is_char_boundary(encode_utf8(text), a)
    &&& is_char_boundary(encode_utf8(text), b)
}

/// The characters of `text` between the byte offsets `a` and `b`.
pub open spec fn stretch(text: Seq<char>, a: int, b: int) -> Seq<char> {
    decode_utf8(encode_utf8(text).subrange(a, b))
}

/// An offset that is a character boundary of a text is one of any part of the
/// text that it lies in.
proof fn lemma_boundary_within(text: Seq<char>, a: int, b: int, m: int)
    requires
        bounds_stretch(text, a, b),
        a <= m <= b,
        is_char_boundary(encode_utf8(text), m),
    ensures
        vstd::utf8::valid_utf8(encode_utf8(text).subrange(a, b)),
        is_char_boundary(encode_utf8(text).subrange(a, b), m - a),
{
    let bytes = encode_utf8(text);
    encode_utf8_valid_utf8(text);
    valid_utf8_split(bytes, b);
    let head = bytes.subrange(0, b);
    is_char_boundary_start_end_of_seq(head);
    if a < b {
        is_char_boundary_iff_not_is_continuation_byte(bytes, a);
        is_char_boundary_iff_not_is_continuation_byte(head, a);
    }
    valid_utf8_split(head, a);
    let part = bytes.subrange(a, b);
    assert(part =~= head.subrange(a, b));
    is_char_boundary_start_end_of_seq(part);
    if m < b {
        is_char_boundary_iff_not_is_continuation_byte(bytes, m);
        is_char_boundary_iff_not_is_continuation_byte(part, m - a);
    }
}

/// Two stretches that meet make one.
pub proof fn stretches_join(text: Seq<char>, a: int, m: int, b: int)
    requires
        bounds_stretch(text, a, m),
        bounds_stretch(text, m, b),
    ensures
        stretch(text, a, m) + stretch(text, m, b) == stretch(text, a, b),
{
    let bytes = encode_utf8(text);
    lemma_boundary_within(text, a, b, m);
    let part = bytes.subrange(a, b);
    decode_utf8_split(part, m - a);
    assert(part.subrange(0, m - a) =~= bytes.subrange(a, m));
    assert(part.subrange(m - a, part.len() as int) =~= bytes.subrange(m, b));
}

/// The stretch from the first offset to the last is the whole text.
pub proof fn whole_stretch(text: Seq<char>)
    ensures
        bounds_stretch(text, 0, encode_utf8(text).len() as int),
        stretch(text, 0, encode_utf8(text).len() as int) == text,
{
    let bytes = encode_utf8(text);
    encode_utf8_valid_utf8(text);
    is_char_boundary_start_end_of_seq(bytes);
    assert(bytes.subrange(0, bytes.len() as int) =~= bytes);
    encode_utf8_decode_utf8(text);
}

/// The characters of `text` between the byte offsets `a` and `b`.
pub fn slice(text: &str, a: usize, b: usize) -> (r: &str)
    requires
        bounds_stretch(text@, a as int, b as int),
    ensures
        r@ == stretch(text@, a as int, b as int),
{
    proof {
        whole_stretch(text@);
        lemma_boundary_within(text@, 0, b as int, a as int);
    }
    let (head, _) = text.split_at(b);
    assert(head.spec_bytes() =~= encode_utf8(text@).subrange(0, b as int));
    let (_, part) = head.split_at(a);
    proof {
        assert(part.spec_bytes() =~= encode_utf8(text@).subrange(a as int, b as int));
        encode_utf8_decode_utf8(part@);
    }
    part
}

/// The length of `text` in bytes.
pub fn byte_len(text: &str) -> (n: usize)
    ensures
        n == encode_utf8(text@).len(),
{
    text.as_bytes().len()
}

/// A stretch is written in the bytes of the text that stand between its offsets, and in
/// no others.
pub proof fn stretch_has_the_bytes_between(text: Seq<char>, a: int, b: int)
    requires
        bounds_stretch(text, a, b),
    ensures
        encode_utf8(stretch(text, a, b)) == encode_utf8(text).subrange(a, b),
{
    lemma_boundary_within(text, a, b, a);
    decode_utf8_encode_utf8(encode_utf8(text).subrange(a, b));
}

} // verus!
