//! Tokenization for transformer-style language models.
//!
//! The crate turns Unicode text into sequences of integer token IDs (and back),
//! tracking for every produced token the character offsets into the original
//! input. It provides the vocabulary abstraction, the offset-preserving
//! pretokenizer (whitespace splitting, special-token protection, punctuation
//! splitting, CJK isolation, lowercasing and accent stripping), the encoding
//! assembler with truncation and overflow handling, and the decoder.

use vstd::prelude::*;

pub use crate::albert_vocab::AlbertVocab;
pub use crate::error::TokenizerError;
pub use crate::tokenization_utils::TruncationStrategy;
pub use crate::tokenizer::BaseTokenizer;
pub use crate::tokens::TokenizedInput;
pub use crate::vocab::BaseVocab;
pub use crate::vocab::Vocab;

pub mod albert_vocab;
pub mod chars;
pub mod error;
pub mod sp_model;
pub mod text;
pub mod tokenization_utils;
pub mod tokenizer;
pub mod tokens;
pub mod vocab;

verus! {

/// Character offsets are indices of Unicode scalar values in the original
/// input string.
pub type OffsetSize = u32;

} // verus!
