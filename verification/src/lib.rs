//! A tokenizer that segments text at Unicode word boundaries.
//!
//! The segmentation itself is delegated to an external implementation of the
//! Unicode word-boundary algorithm; this crate wraps its output in a uniform
//! token shape and proves that the emitted tokens carry exact byte
//! provenance: their byte ranges are contiguous, non-overlapping, and
//! reconstruct the input when concatenated in emission order.

mod laws;
mod segmentation;
mod token;
mod unicode_segmenter;

pub use laws::lemma_restartable;
pub use laws::lemma_round_trip;
pub use laws::lemma_token_coverage;
pub use segmentation::ascii_approximation;
pub use segmentation::byte_len;
pub use segmentation::byte_offset;
pub use segmentation::is_ascii_below_del;
pub use segmentation::is_segmentation;
pub use segmentation::word_segments;
pub use token::byte_round_trip;
pub use token::byte_slices_of;
pub use token::is_tokenization;
pub use token::round_trip;
pub use token::tokens_cover;
pub use token::tokens_equiv;
pub use token::words_of;
pub use token::Token;
pub use token::TokenKind;
pub use unicode_segmenter::InternalTokenizer;
pub use unicode_segmenter::UnicodeSegmenter;
pub use unicode_segmenter::UnicodeSegmenterIterator;
