//! The guarantees of the tokenizer, proved once for every input: byte
//! provenance is exact (round-trip), the byte ranges tile the input
//! (coverage), and the token sequence is determined by the input alone
//! (restartability).

use vstd::prelude::*;
use vstd::utf8::encode_utf8;
use crate::segmentation::byte_len;
use crate::segmentation::byte_offset;
use crate::segmentation::encoded_segments;
use crate::segmentation::lemma_byte_offset_full;
use crate::segmentation::lemma_byte_offset_monotone;
use crate::segmentation::lemma_byte_offset_step;
use crate::segmentation::lemma_byte_offset_zero;
use crate::segmentation::lemma_encode_utf8_flatten;
use crate::segmentation::lemma_encode_utf8_nonempty;
use crate::segmentation::lemma_segment_bytes;
use crate::segmentation::word_segments;
use crate::token::byte_round_trip;
use crate::token::byte_slices_of;
use crate::token::is_tokenization;
use crate::token::round_trip;
use crate::token::tokens_cover;
use crate::token::tokens_equiv;
use crate::token::words_of;
use crate::token::Token;

verus! {

/// An empty input has no segments, and a non-empty input has at least one.
proof fn lemma_segments_empty_iff(s: Seq<char>)
    requires
        word_segments(s).flatten() == s,
        forall|i: int|
            0 <= i < word_segments(s).len() ==> (#[trigger] word_segments(s)[i]).len() > 0,
    ensures
        word_segments(s).len() == 0 <==> s.len() == 0,
{
    let segs = word_segments(s);
    if segs.len() == 0 {
        assert(segs.flatten() =~= Seq::<char>::empty());
    } else {
        assert(s =~= segs.first() + segs.drop_first().flatten());
        assert(s.len() >= segs[0].len());
    }
}

/// The byte offset past any segment is the offset of the segment plus its
/// byte length, and stays within the byte length of the whole input.
proof fn lemma_offset_bounds(s: Seq<char>, i: int)
    requires
        word_segments(s).flatten() == s,
        0 <= i < word_segments(s).len(),
    ensures
        byte_offset(s, i + 1) == byte_offset(s, i) + byte_len(word_segments(s)[i]),
        byte_offset(s, i + 1) <= byte_len(s),
        byte_offset(s, i) + byte_len(word_segments(s)[i]) <= byte_len(s),
{
    lemma_byte_offset_step(s, i);
    lemma_byte_offset_monotone(s, i + 1, word_segments(s).len() as int);
    lemma_byte_offset_full(s);
}

/// The token sequence is empty exactly when the input is, and a first token
/// starts at byte `0`.
proof fn lemma_cover_start(s: Seq<char>, toks: Seq<Token>)
    requires
        is_tokenization(s, toks),
    ensures
        toks.len() == 0 <==> s.len() == 0,
        toks.len() > 0 ==> toks[0].byte_start == 0,
{
    lemma_segments_empty_iff(s);
    lemma_byte_offset_zero(s);
}

/// Every token's byte range is non-empty.
proof fn lemma_cover_nonempty_ranges(s: Seq<char>, toks: Seq<Token>)
    requires
        is_tokenization(s, toks),
    ensures
        forall|i: int| 0 <= i < toks.len() ==> (#[trigger] toks[i]).byte_start < toks[i].byte_end,
{
    assert forall|i: int| 0 <= i < toks.len() implies (#[trigger] toks[i]).byte_start
        < toks[i].byte_end by {
        lemma_encode_utf8_nonempty(word_segments(s)[i]);
    }
}

/// Every token's byte range ends exactly where the next one starts.
proof fn lemma_cover_adjacent(s: Seq<char>, toks: Seq<Token>)
    requires
        is_tokenization(s, toks),
    ensures
        forall|i: int|
            #![trigger toks[i], toks[i + 1]]
            0 <= i && i + 1 < toks.len() ==> toks[i].byte_end == toks[i + 1].byte_start,
{
    assert forall|i: int|
        #![trigger toks[i], toks[i + 1]]
        0 <= i && i + 1 < toks.len() implies toks[i].byte_end == toks[i + 1].byte_start by {
        lemma_offset_bounds(s, i);
    }
}

/// Every token's byte range stays within the input, and a last token ends
/// at the byte length of the input.
proof fn lemma_cover_end(s: Seq<char>, toks: Seq<Token>)
    requires
        is_tokenization(s, toks),
    ensures
        forall|i: int| 0 <= i < toks.len() ==> (#[trigger] toks[i]).byte_end as int <= byte_len(s),
        toks.len() > 0 ==> toks[toks.len() - 1].byte_end as int == byte_len(s),
{
    assert forall|i: int| 0 <= i < toks.len() implies (#[trigger] toks[i]).byte_end as int
        <= byte_len(s) by {
        lemma_offset_bounds(s, i);
    }
    if toks.len() > 0 {
        lemma_offset_bounds(s, toks.len() - 1);
        lemma_byte_offset_full(s);
    }
}

/// The byte ranges of any two distinct tokens do not overlap.
proof fn lemma_cover_disjoint(s: Seq<char>, toks: Seq<Token>)
    requires
        is_tokenization(s, toks),
    ensures
        forall|i: int, j: int|
            0 <= i < j < toks.len() ==> (#[trigger] toks[i]).byte_end <= (
            #[trigger] toks[j]).byte_start,
{
    assert forall|i: int, j: int| 0 <= i < j < toks.len() implies (#[trigger] toks[i]).byte_end
        <= (#[trigger] toks[j]).byte_start by {
        lemma_offset_bounds(s, i);
        lemma_byte_offset_monotone(s, i + 1, j);
    }
}

/// Coverage: the byte ranges of a tokenization are non-empty, adjacent,
/// pairwise non-overlapping, start at byte `0`, and end at the byte length
/// of the input; the sequence is empty exactly when the input is.
pub proof fn lemma_token_coverage(s: Seq<char>, toks: Seq<Token>)
    requires
        is_tokenization(s, toks),
    ensures
        tokens_cover(s, toks),
{
    lemma_cover_start(s, toks);
    lemma_cover_nonempty_ranges(s, toks);
    lemma_cover_adjacent(s, toks);
    lemma_cover_end(s, toks);
    lemma_cover_disjoint(s, toks);
}

/// Round-trip: concatenating the tokens' texts in emission order
/// reconstructs the input, and concatenating the input's byte slices
/// selected by the tokens' byte ranges reconstructs the encoded input.
pub proof fn lemma_round_trip(s: Seq<char>, toks: Seq<Token>)
    requires
        is_tokenization(s, toks),
    ensures
        round_trip(s, toks),
        byte_round_trip(s, toks),
{
    let segs = word_segments(s);
    assert(words_of(toks) =~= segs);
    assert forall|i: int| 0 <= i < toks.len() implies #[trigger] byte_slices_of(s, toks)[i]
        == encoded_segments(segs)[i] by {
        lemma_segment_bytes(s, i);
    }
    assert(byte_slices_of(s, toks) =~= encoded_segments(segs));
    lemma_encode_utf8_flatten(segs);
}

/// Restartability: any two tokenizations of the same input are element-wise
/// equivalent, since every observable field of every token is determined by
/// the input alone.
pub proof fn lemma_restartable(s: Seq<char>, t1: Seq<Token>, t2: Seq<Token>)
    requires
        is_tokenization(s, t1),
        is_tokenization(s, t2),
    ensures
        tokens_equiv(t1, t2),
{
    assert forall|i: int| 0 <= i < t1.len() implies (#[trigger] t1[i]).equiv(t2[i]) by {
        assert(t1[i].byte_start as int == byte_offset(s, i) == t2[i].byte_start as int);
        assert(t1[i].byte_end as int == t2[i].byte_end as int);
    }
}

} // verus!
