//! Replacing a byte range of a text.

use vstd::prelude::*;
use vstd::string::*;
use vstd::utf8::{encode_utf8, is_char_boundary};

verus! {

/// Encoding a concatenation concatenates the encodings.
pub proof fn lemma_encode_utf8_concat(a: Seq<char>, b: Seq<char>)
    ensures
        encode_utf8(a + b) == encode_utf8(a) + encode_utf8(b),
    decreases a.len(),
{
    if a.len() == 0 {
        assert(a + b =~= b);
        assert(encode_utf8(a) =~= Seq::<u8>::empty());
        assert(encode_utf8(a) + encode_utf8(b) =~= encode_utf8(b));
    } else {
        assert((a + b).drop_first() =~= a.drop_first() + b);
        assert((a + b)[0] == a[0]);
        lemma_encode_utf8_concat(a.drop_first(), b);
        assert(encode_utf8(a + b) =~= encode_utf8(a) + encode_utf8(b));
    }
}

/// The UTF-8 bytes of `s` with the bytes from `start` to `end` replaced by
/// those of `replacement`.
pub open spec fn replaced_range(s: Seq<u8>, start: int, end: int, replacement: Seq<u8>) -> Seq<u8> {
    s.take(start) + replacement + s.skip(end)
}

/// Replaces the bytes from `start_offset` to `end_offset` of `content` by
/// `replacement`; both offsets must be character boundaries.
pub fn replace_range(content: &str, start_offset: usize, end_offset: usize, replacement: &str) -> (r: String)
    requires
        start_offset <= end_offset <= content.spec_bytes().len(),
        is_char_boundary(content.spec_bytes(), start_offset as int),
        is_char_boundary(content.spec_bytes(), end_offset as int),
    ensures
        encode_utf8(r@) == replaced_range(
            content.spec_bytes(),
            start_offset as int,
            end_offset as int,
            encode_utf8(replacement@),
        ),
{
    let (before, _) = content.split_at(start_offset);
    let (_, after) = content.split_at(end_offset);
    let mut r = String::from_str(before);
    r.append(replacement);
    r.append(after);
    proof {
        lemma_encode_utf8_concat(before@, replacement@);
        lemma_encode_utf8_concat(before@ + replacement@, after@);
        assert(content.spec_bytes().subrange(end_offset as int, content.spec_bytes().len() as int)
            =~= content.spec_bytes().skip(end_offset as int));
        assert(content.spec_bytes().subrange(0, start_offset as int) =~= content.spec_bytes().take(
            start_offset as int,
        ));
    }
    r
}

} // verus!
