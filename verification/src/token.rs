//! The token record emitted by the tokenizer, and the predicates that say
//! what a correct token sequence for a given input looks like.

use vstd::prelude::*;
use vstd::utf8::encode_utf8;
use crate::segmentation::byte_len;
use crate::segmentation::byte_offset;
use crate::segmentation::word_segments;

verus! {

/// The kind of a segmented unit of text.
///
/// The scope covered here only ever produces word tokens, but the
/// enumeration is left open for sibling tokenizer strategies that may emit
/// other kinds.
#[derive(Clone, Copy, Debug, PartialEq, Eq, Structural)]
#[non_exhaustive]
pub enum TokenKind {
    Word,
}

/// One segmented unit of text, together with the half-open byte range
/// `[byte_start, byte_end)` of the input buffer it was extracted from.
#[derive(Debug)]
pub struct Token {
    pub kind: TokenKind,
    pub word: String,
    pub byte_start: usize,
    pub byte_end: usize,
}

impl Token {
    /// Two tokens are equivalent when they agree on the kind, the text, and
    /// the byte range; this is equality of everything a caller can observe.
    pub open spec fn equiv(self, other: Token) -> bool {
        &&& self.kind == other.kind
        &&& self.word@ == other.word@
        &&& self.byte_start == other.byte_start
        &&& self.byte_end == other.byte_end
    }
}

/// The tokens are exactly the word-boundary segmentation of `s`: token `i`
/// is a word token carrying segment `i` and the byte range that segment
/// occupies in `s`.  This pins every observable field of every token, so
/// any two token sequences satisfying it for the same `s` are equivalent.
pub open spec fn is_tokenization(s: Seq<char>, toks: Seq<Token>) -> bool {
    let segs = word_segments(s);
    &&& segs.flatten() == s
    &&& forall|i: int| 0 <= i < segs.len() ==> (#[trigger] segs[i]).len() > 0
    &&& toks.len() == segs.len()
    &&& forall|i: int| 0 <= i < toks.len() ==> (#[trigger] toks[i]).kind == TokenKind::Word
    &&& forall|i: int| 0 <= i < toks.len() ==> (#[trigger] toks[i]).word@ == segs[i]
    &&& forall|i: int| 0 <= i < toks.len() ==> (#[trigger] toks[i]).byte_start as int == byte_offset(
        s,
        i,
    )
    &&& forall|i: int| 0 <= i < toks.len() ==> (#[trigger] toks[i]).byte_end as int == byte_offset(
        s,
        i,
    ) + byte_len(segs[i])
}

/// The byte ranges of the tokens are pairwise non-overlapping, each range is
/// non-empty, consecutive ranges are adjacent, and together they cover the
/// encoded input from byte `0` to its byte length with no gaps.
pub open spec fn tokens_cover(s: Seq<char>, toks: Seq<Token>) -> bool {
    &&& (toks.len() == 0 <==> s.len() == 0)
    &&& toks.len() > 0 ==> toks[0].byte_start == 0
    &&& forall|i: int| 0 <= i < toks.len() ==> (#[trigger] toks[i]).byte_start < toks[i].byte_end
    &&& forall|i: int|
        #![trigger toks[i], toks[i + 1]]
        0 <= i && i + 1 < toks.len() ==> toks[i].byte_end == toks[i + 1].byte_start
    &&& forall|i: int, j: int|
        0 <= i < j < toks.len() ==> (#[trigger] toks[i]).byte_end <= (#[trigger] toks[j]).byte_start
    &&& toks.len() > 0 ==> toks[toks.len() - 1].byte_end as int == byte_len(s)
    &&& forall|i: int| 0 <= i < toks.len() ==> (#[trigger] toks[i]).byte_end as int <= byte_len(s)
}

/// The texts of the tokens, in emission order.
pub open spec fn words_of(toks: Seq<Token>) -> Seq<Seq<char>> {
    toks.map_values(|t: Token| t.word@)
}

/// Concatenating the texts of the tokens, in emission order, reconstructs
/// the input exactly.
pub open spec fn round_trip(s: Seq<char>, toks: Seq<Token>) -> bool {
    words_of(toks).flatten() == s
}

/// The slices of the encoded input selected by the tokens' byte ranges, in
/// emission order.
pub open spec fn byte_slices_of(s: Seq<char>, toks: Seq<Token>) -> Seq<Seq<u8>> {
    toks.map_values(|t: Token| encode_utf8(s).subrange(t.byte_start as int, t.byte_end as int))
}

/// Concatenating the byte slices of the input selected by the tokens' byte
/// ranges, in emission order, reconstructs the encoded input exactly.
pub open spec fn byte_round_trip(s: Seq<char>, toks: Seq<Token>) -> bool {
    byte_slices_of(s, toks).flatten() == encode_utf8(s)
}

/// Element-wise equivalence of two token sequences.
pub open spec fn tokens_equiv(t1: Seq<Token>, t2: Seq<Token>) -> bool {
    &&& t1.len() == t2.len()
    &&& forall|i: int| 0 <= i < t1.len() ==> (#[trigger] t1[i]).equiv(t2[i])
}

} // verus!
