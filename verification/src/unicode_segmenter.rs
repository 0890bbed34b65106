//! The tokenizer adapter: it turns a text buffer into a sequence of word
//! tokens with exact byte provenance, delegating the boundary decisions to
//! the Unicode word-boundary algorithm.

use vstd::prelude::*;
use crate::segmentation::ascii_approximation;
use crate::segmentation::deunicode_str;
use crate::segmentation::is_ascii_below_del;
use crate::segmentation::word_bound_indices;
use crate::segmentation::word_segments;
use crate::segmentation::byte_offset;
use crate::segmentation::byte_len;
use crate::laws::lemma_round_trip;
use crate::laws::lemma_token_coverage;
use crate::token::byte_round_trip;
use crate::token::is_tokenization;
use crate::token::round_trip;
use crate::token::tokens_cover;
use crate::token::Token;
use crate::token::TokenKind;

verus! {

/// The tokenizer strategy that segments at Unicode word boundaries.
pub struct UnicodeSegmenter;

/// A restartable cursor over the tokens of one input buffer.  Tokens are
/// handed out one per pull, in emission order.
pub struct UnicodeSegmenterIterator {
    tokens: Vec<Token>,
    pos: usize,
}

impl UnicodeSegmenterIterator {
    /// The full token sequence this cursor walks over.
    pub closed spec fn tokens(&self) -> Seq<Token> {
        self.tokens@
    }

    /// How many tokens have been handed out so far.
    pub closed spec fn pos(&self) -> int {
        self.pos as int
    }

    /// The cursor never moves past the end of the token sequence.
    pub open spec fn wf(&self) -> bool {
        0 <= self.pos() <= self.tokens().len()
    }

    /// Hands out the next token, or `None` once every token has been
    /// emitted.  The token returned is observably equal to the one at the
    /// cursor's position, and the underlying sequence never changes.
    pub fn next(&mut self) -> (r: Option<Token>)
        requires
            old(self).wf(),
        ensures
            final(self).wf(),
            final(self).tokens() == old(self).tokens(),
            old(self).pos() < old(self).tokens().len() ==> {
                &&& final(self).pos() == old(self).pos() + 1
                &&& r matches Some(t) && t.equiv(old(self).tokens()[old(self).pos()])
            },
            old(self).pos() >= old(self).tokens().len() ==> {
                &&& r is None
                &&& final(self).pos() == old(self).pos()
            },
    {
        if self.pos < self.tokens.len() {
            let t = &self.tokens[self.pos];
            let out = Token {
                kind: t.kind,
                word: t.word.clone(),
                byte_start: t.byte_start,
                byte_end: t.byte_end,
            };
            self.pos = self.pos + 1;
            Some(out)
        } else {
            None
        }
    }

    /// Transliterates a string to a best-effort ASCII approximation, for
    /// normalizing non-Latin sample text before comparison.  The result
    /// holds only characters strictly below DEL, so normalizing twice
    /// changes nothing; input already of that shape comes back unchanged.
    pub fn normalize(s: &str) -> (r: String)
        ensures
            r@ == ascii_approximation(s@),
            is_ascii_below_del(r@),
            is_ascii_below_del(s@) ==> r@ == s@,
    {
        deunicode_str(s)
    }
}

/// The uniform tokenizer contract, shared by every tokenizer strategy:
/// `tokenize` hands back a fresh cursor whose tokens tile the input
/// byte-exactly ([`tokens_cover`]) and reconstruct it when concatenated in
/// emission order ([`round_trip`], [`byte_round_trip`]).  Each strategy
/// says with [`InternalTokenizer::tokenizes`] which token sequence it
/// produces for a given input.
pub trait InternalTokenizer {
    /// The token sequences this strategy may produce for input `s`.
    spec fn tokenizes(&self, s: Seq<char>, toks: Seq<Token>) -> bool;

    /// Segments `s` and returns a fresh cursor over the resulting tokens.
    fn tokenize(&self, s: &str) -> (r: UnicodeSegmenterIterator)
        ensures
            r.wf(),
            r.pos() == 0,
            self.tokenizes(s@, r.tokens()),
            tokens_cover(s@, r.tokens()),
            round_trip(s@, r.tokens()),
            byte_round_trip(s@, r.tokens()),
    ;
}

impl InternalTokenizer for UnicodeSegmenter {
    /// This strategy produces exactly the Unicode word-boundary
    /// segmentation of the input ([`is_tokenization`]); in particular the
    /// token sequence is determined by the input alone.
    open spec fn tokenizes(&self, s: Seq<char>, toks: Seq<Token>) -> bool {
        is_tokenization(s, toks)
    }

    /// Segments `s` at Unicode word boundaries and returns a fresh cursor
    /// over the resulting tokens.
    fn tokenize(&self, s: &str) -> (r: UnicodeSegmenterIterator) {
        let pairs = word_bound_indices(s);
        let n = pairs.len();
        let mut tokens: Vec<Token> = Vec::new();
        let mut k: usize = 0;
        while k < n
            invariant
                n == pairs@.len(),
                crate::segmentation::is_segmentation(s@, pairs@),
                k <= n,
                tokens@.len() == k,
                forall|j: int| 0 <= j < k ==> (#[trigger] tokens@[j]).kind == TokenKind::Word,
                forall|j: int|
                    0 <= j < k ==> (#[trigger] tokens@[j]).word@ == word_segments(s@)[j],
                forall|j: int|
                    0 <= j < k ==> (#[trigger] tokens@[j]).byte_start as int == byte_offset(s@, j),
                forall|j: int|
                    0 <= j < k ==> (#[trigger] tokens@[j]).byte_end as int == byte_offset(s@, j)
                        + byte_len(word_segments(s@)[j]),
            decreases n - k,
        {
            let idx = pairs[k].0;
            let word = pairs[k].1.clone();
            let wlen = word.as_str().len();
            proof {
                let ki = k as int;
                let segs = word_segments(s@);
                assert(pairs@[ki].1@ == segs[ki]);
                assert(pairs@[ki].0 as int == byte_offset(s@, ki));
                crate::segmentation::lemma_byte_offset_step(s@, ki);
                crate::segmentation::lemma_byte_offset_monotone(s@, ki + 1, segs.len() as int);
                crate::segmentation::lemma_byte_offset_full(s@);
                assert(byte_offset(s@, ki) + byte_len(segs[ki]) <= byte_len(s@));
                assert(word@ == segs[ki]);
                assert(wlen as int == byte_len(segs[ki]));
            }
            let end = idx + wlen;
            tokens.push(
                Token { kind: TokenKind::Word, word, byte_start: idx, byte_end: end },
            );
            k = k + 1;
        }
        proof {
            lemma_token_coverage(s@, tokens@);
            lemma_round_trip(s@, tokens@);
        }
        UnicodeSegmenterIterator { tokens, pos: 0 }
    }
}

} // verus!
