//! The mathematical model of Unicode word-boundary segmentation, and the
//! trusted bindings to the external algorithms.
//!
//! The segmentation of a character sequence is named by the uninterpreted
//! function [`word_segments`]: its value is fixed by the external
//! word-boundary algorithm and depends on the input alone.  The trusted
//! binding [`word_bound_indices`] states the documented shape of that value:
//! the segments are non-empty and concatenate back to the input, and each
//! reported offset is the UTF-8 byte length of the text before its segment.
//! Everything else the crate claims about tokens is proved from these facts.

use vstd::prelude::*;
use vstd::seq_lib::lemma_flatten_concat;
use vstd::utf8::encode_utf8;
use unicode_segmentation::UnicodeSegmentation;
use deunicode::deunicode;

verus! {

/// The sequence of segments that the Unicode word-boundary algorithm divides
/// a character sequence into.  The algorithm is deterministic: the same
/// input always has the same segmentation.
pub uninterp spec fn word_segments(s: Seq<char>) -> Seq<Seq<char>>;

/// The ASCII approximation of a character sequence produced by best-effort
/// transliteration.  The transliteration is table-driven and deterministic:
/// the same input always has the same approximation.
pub uninterp spec fn ascii_approximation(s: Seq<char>) -> Seq<char>;

/// The byte offset at which segment `i` of the segmentation of `s` starts:
/// the UTF-8 byte length of the concatenation of the segments before it.
pub open spec fn byte_offset(s: Seq<char>, i: int) -> int {
    encode_utf8(word_segments(s).take(i).flatten()).len() as int
}

/// The UTF-8 byte length of a character sequence.
pub open spec fn byte_len(cs: Seq<char>) -> int {
    encode_utf8(cs).len() as int
}

/// What the word-boundary algorithm guarantees of its output, and how the
/// `(offset, substring)` pairs handed back by [`word_bound_indices`] relate
/// to it: the segments are non-empty and concatenate back to `s`, pair `i`
/// carries segment `i`, and its offset is the byte position of that segment.
/// The input is a string resident in memory, so its byte length — which its
/// `len` method reports as a `usize` — fits in a `usize`.
pub open spec fn is_segmentation(s: Seq<char>, pairs: Seq<(usize, String)>) -> bool {
    let segs = word_segments(s);
    &&& byte_len(s) <= usize::MAX as int
    &&& segs.flatten() == s
    &&& forall|i: int| 0 <= i < segs.len() ==> (#[trigger] segs[i]).len() > 0
    &&& pairs.len() == segs.len()
    &&& forall|i: int| 0 <= i < pairs.len() ==> (#[trigger] pairs[i]).1@ == segs[i]
    &&& forall|i: int| 0 <= i < pairs.len() ==> (#[trigger] pairs[i]).0 as int == byte_offset(s, i)
}

/// Relies on `unicode_segmentation::UnicodeSegmentation::split_word_bound_indices`:
/// it yields the substrings of `s` between consecutive UAX#29 word
/// boundaries, in order, each with its byte offset in `s`; the substrings
/// are non-empty and their concatenation is exactly `s`.
#[verifier::external_body]
pub(crate) fn word_bound_indices(s: &str) -> (r: Vec<(usize, String)>)
    ensures
        is_segmentation(s@, r@),
        r@.len() == word_segments(s@).len(),
{
    s.split_word_bound_indices().map(|(i, w)| (i, w.to_string())).collect()
}

/// UTF-8 encoding distributes over concatenation of character sequences.
pub proof fn lemma_encode_utf8_concat(a: Seq<char>, b: Seq<char>)
    ensures
        encode_utf8(a + b) == encode_utf8(a) + encode_utf8(b),
    decreases a.len(),
{
    if a.len() == 0 {
        assert(a + b =~= b);
        assert(encode_utf8(a) + encode_utf8(b) =~= encode_utf8(b));
    } else {
        assert((a + b)[0] == a[0]);
        assert((a + b).drop_first() =~= a.drop_first() + b);
        lemma_encode_utf8_concat(a.drop_first(), b);
        assert(encode_utf8(a + b) =~= encode_utf8(a) + encode_utf8(b));
    }
}

/// A non-empty character sequence has a non-empty UTF-8 encoding.
pub proof fn lemma_encode_utf8_nonempty(cs: Seq<char>)
    requires
        cs.len() > 0,
    ensures
        byte_len(cs) > 0,
{
    assert(vstd::utf8::encode_scalar(cs[0] as u32).len() >= 1);
}

/// The UTF-8 encodings of each segment in a sequence of segments.
pub open spec fn encoded_segments(ss: Seq<Seq<char>>) -> Seq<Seq<u8>> {
    ss.map_values(|cs: Seq<char>| encode_utf8(cs))
}

/// Encoding the concatenation of a sequence of segments yields the
/// concatenation of the encodings of the segments.
pub proof fn lemma_encode_utf8_flatten(ss: Seq<Seq<char>>)
    ensures
        encode_utf8(ss.flatten()) == encoded_segments(ss).flatten(),
    decreases ss.len(),
{
    if ss.len() == 0 {
        assert(encode_utf8(ss.flatten()) =~= encoded_segments(ss).flatten());
    } else {
        lemma_encode_utf8_concat(ss.first(), ss.drop_first().flatten());
        lemma_encode_utf8_flatten(ss.drop_first());
        assert(encoded_segments(ss).drop_first() =~= encoded_segments(ss.drop_first()));
        assert(encoded_segments(ss).first() == encode_utf8(ss.first()));
        assert(encode_utf8(ss.flatten()) =~= encoded_segments(ss).flatten());
    }
}

/// The first segment starts at byte offset zero.
pub proof fn lemma_byte_offset_zero(s: Seq<char>)
    ensures
        byte_offset(s, 0) == 0,
{
    assert(word_segments(s).take(0).flatten() =~= Seq::<char>::empty());
}

/// Each segment ends exactly where the next one starts: advancing the
/// offset past segment `i` adds the byte length of segment `i`.
pub proof fn lemma_byte_offset_step(s: Seq<char>, i: int)
    requires
        0 <= i < word_segments(s).len(),
    ensures
        byte_offset(s, i + 1) == byte_offset(s, i) + byte_len(word_segments(s)[i]),
{
    let segs = word_segments(s);
    assert(segs.take(i + 1) =~= segs.take(i).push(segs[i]));
    segs.take(i).lemma_flatten_push(segs[i]);
    lemma_encode_utf8_concat(segs.take(i).flatten(), segs[i]);
}

/// Byte offsets are monotone in the segment index.
pub proof fn lemma_byte_offset_monotone(s: Seq<char>, i: int, j: int)
    requires
        0 <= i <= j <= word_segments(s).len(),
    ensures
        byte_offset(s, i) <= byte_offset(s, j),
    decreases j - i,
{
    if i < j {
        lemma_byte_offset_step(s, j - 1);
        lemma_byte_offset_monotone(s, i, j - 1);
    }
}

/// Past the last segment the offset is the byte length of the whole input.
pub proof fn lemma_byte_offset_full(s: Seq<char>)
    requires
        word_segments(s).flatten() == s,
    ensures
        byte_offset(s, word_segments(s).len() as int) == byte_len(s),
{
    assert(word_segments(s).take(word_segments(s).len() as int) =~= word_segments(s));
}

/// Segment `i` occupies the bytes of the input between its offset and its
/// offset plus its own byte length: slicing that range out of the encoded
/// input gives back exactly the encoded segment.
pub proof fn lemma_segment_bytes(s: Seq<char>, i: int)
    requires
        word_segments(s).flatten() == s,
        0 <= i < word_segments(s).len(),
    ensures
        byte_offset(s, i) + byte_len(word_segments(s)[i]) <= byte_len(s),
        encode_utf8(s).subrange(
            byte_offset(s, i),
            byte_offset(s, i) + byte_len(word_segments(s)[i]),
        ) == encode_utf8(word_segments(s)[i]),
{
    let segs = word_segments(s);
    let a = encode_utf8(segs.take(i).flatten());
    let b = encode_utf8(segs[i]);
    let c = encode_utf8(segs.skip(i + 1).flatten());
    assert(segs.take(i + 1) + segs.skip(i + 1) =~= segs);
    lemma_flatten_concat(segs.take(i + 1), segs.skip(i + 1));
    assert(segs.take(i + 1) =~= segs.take(i).push(segs[i]));
    segs.take(i).lemma_flatten_push(segs[i]);
    assert(s =~= (segs.take(i).flatten() + segs[i]) + segs.skip(i + 1).flatten());
    lemma_encode_utf8_concat(segs.take(i).flatten() + segs[i], segs.skip(i + 1).flatten());
    lemma_encode_utf8_concat(segs.take(i).flatten(), segs[i]);
    assert(encode_utf8(s) == (a + b) + c);
    assert(encode_utf8(s).subrange(a.len() as int, a.len() as int + b.len() as int) =~= b);
}

/// True when every character of the sequence lies strictly below DEL
/// (code point `0x7f`): the ASCII characters that transliteration passes
/// through unchanged, and the only characters it ever emits.
pub open spec fn is_ascii_below_del(cs: Seq<char>) -> bool {
    forall|i: int| 0 <= i < cs.len() ==> (#[trigger] cs[i]) < '\u{7f}'
}

/// Relies on `deunicode::deunicode`: it transliterates any string to ASCII
/// characters strictly below DEL, and depends on the characters of its
/// input alone.  An input whose characters all lie strictly below DEL is
/// returned unchanged (the fast path); DEL itself, and control characters
/// standing after the first character at or above DEL, go through the
/// transliteration table instead, which may drop them.
#[verifier::external_body]
pub(crate) fn deunicode_str(s: &str) -> (r: String)
    ensures
        r@ == ascii_approximation(s@),
        is_ascii_below_del(r@),
        is_ascii_below_del(s@) ==> r@ == s@,
{
    deunicode(s)
}

} // verus!
