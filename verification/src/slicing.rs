use vstd::prelude::*;
use vstd::string::StringSliceAdditionalSpecFns;
use vstd::utf8::{
    encode_scalar, encode_utf8, encode_utf8_decode_utf8, encode_utf8_first_scalar,
    encode_utf8_valid_utf8, is_char_boundary, length_of_first_scalar, pop_first_scalar,
};

verus! {

/// The number of bytes that the first `k` characters of `text` take in
/// UTF-8: the place of character `k` in the encoded text.
pub open spec fn offset(text: Seq<char>, k: int) -> int {
    encode_utf8(text.take(k)).len() as int
}

/// The encoding of a text is the encoding of its first part followed by
/// that of the rest.
pub proof fn lemma_encode_concat(a: Seq<char>, b: Seq<char>)
    ensures
        encode_utf8(a + b) == encode_utf8(a) + encode_utf8(b),
    decreases a.len(),
{
    if a.len() == 0 {
        assert(a + b =~= b);
        assert(encode_utf8(a) + encode_utf8(b) =~= encode_utf8(b));
    } else {
        assert((a + b).drop_first() =~= a.drop_first() + b);
        lemma_encode_concat(a.drop_first(), b);
        assert(encode_utf8(a + b) =~= encode_utf8(a) + encode_utf8(b));
    }
}

/// The places of the characters ascend with them, from 0 to the length of
/// the encoded text, by the width of each character.
pub proof fn lemma_offsets(text: Seq<char>, i: int, j: int)
    requires
        0 <= i <= j <= text.len(),
    ensures
        0 <= offset(text, i) <= offset(text, j) <= encode_utf8(text).len(),
        offset(text, 0) == 0,
        offset(text, text.len() as int) == encode_utf8(text).len(),
        i < j ==> offset(text, i + 1) == offset(text, i) + encode_scalar(text[i] as u32).len(),
        i < j ==> offset(text, i) < offset(text, i + 1),
{
    assert(text.take(j) =~= text.take(i) + text.subrange(i, j));
    lemma_encode_concat(text.take(i), text.subrange(i, j));
    assert(text =~= text.take(j) + text.skip(j));
    lemma_encode_concat(text.take(j), text.skip(j));
    assert(text.take(text.len() as int) =~= text);
    assert(text.take(0) =~= Seq::<char>::empty());
    if i < j {
        let one = seq![text[i]];
        assert(text.take(i + 1) =~= text.take(i) + one);
        lemma_encode_concat(text.take(i), one);
        assert(one.drop_first() =~= Seq::<char>::empty());
        reveal_with_fuel(encode_utf8, 2);
        assert(encode_utf8(one) =~= encode_scalar(text[i] as u32));
        vstd::utf8::char_is_scalar(text[i]);
    }
}

/// Each character starts at a character boundary of the encoded text, and
/// so does the end of the text.
pub proof fn lemma_offset_is_boundary(text: Seq<char>, k: int)
    requires
        0 <= k <= text.len(),
    ensures
        is_char_boundary(encode_utf8(text), offset(text, k)),
    decreases k,
{
    let bytes = encode_utf8(text);
    encode_utf8_valid_utf8(text);
    if k == 0 {
        assert(text.take(0) =~= Seq::<char>::empty());
    } else {
        let rest = text.drop_first();
        encode_utf8_first_scalar(text);
        assert(pop_first_scalar(bytes) =~= encode_utf8(rest));
        lemma_offset_is_boundary(rest, k - 1);
        assert(text.take(k) =~= seq![text[0]] + rest.take(k - 1));
        lemma_encode_concat(seq![text[0]], rest.take(k - 1));
        assert(seq![text[0]].drop_first() =~= Seq::<char>::empty());
        reveal_with_fuel(encode_utf8, 2);
        assert(encode_utf8(seq![text[0]]) =~= encode_scalar(text[0] as u32));
        assert(offset(text, k) == length_of_first_scalar(bytes) + offset(rest, k - 1));
        lemma_offsets(rest, k - 1, rest.len() as int);
        assert(offset(text, k) <= bytes.len());
    }
}

/// Two texts with the same encoding are the same text.
pub proof fn lemma_encode_is_one_to_one(a: Seq<char>, b: Seq<char>)
    requires
        encode_utf8(a) == encode_utf8(b),
    ensures
        a == b,
{
    encode_utf8_decode_utf8(a);
    encode_utf8_decode_utf8(b);
}

/// The number of bytes that `c` takes in UTF-8.
pub fn width(c: char) -> (bytes: usize)
    ensures
        bytes == encode_scalar(c as u32).len(),
        1 <= bytes <= 4,
{
    proof {
        vstd::utf8::char_is_scalar(c);
    }
    let code: u32 = c as u32;
    if code < 0x80 {
        1
    } else if code < 0x800 {
        2
    } else if code < 0x10000 {
        3
    } else {
        4
    }
}

/// The part of `s` from character `i` up to character `j`, which start at
/// the bytes `from` and `to`.
pub(crate) fn cut<'a>(s: &'a str, from: usize, to: usize, Ghost(i): Ghost<int>, Ghost(j): Ghost<int>) -> (part:
    &'a str)
    requires
        0 <= i <= j <= s@.len(),
        from == offset(s@, i),
        to == offset(s@, j),
    ensures
        part@ == s@.subrange(i, j),
{
    proof {
        lemma_offset_is_boundary(s@, j);
    }
    let (head, _) = s.split_at(to);
    proof {
        assert(s@ =~= s@.take(j) + s@.skip(j));
        lemma_encode_concat(s@.take(j), s@.skip(j));
        assert(head.spec_bytes() =~= encode_utf8(s@.take(j)));
        lemma_encode_is_one_to_one(head@, s@.take(j));
        assert(head@.take(i) =~= s@.take(i));
        lemma_offset_is_boundary(head@, i);
    }
    let (_, part) = head.split_at(from);
    proof {
        assert(head@ =~= head@.take(i) + head@.skip(i));
        lemma_encode_concat(head@.take(i), head@.skip(i));
        lemma_offsets(head@, i, j);
        assert(part.spec_bytes() =~= encode_utf8(head@.skip(i)));
        lemma_encode_is_one_to_one(part@, head@.skip(i));
        assert(head@.skip(i) =~= s@.subrange(i, j));
    }
    part
}

} // verus!
