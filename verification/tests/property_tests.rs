use std::sync::Arc;

use rust_tokenizers::albert_vocab::AlbertVocab;
use rust_tokenizers::error::TokenizerError;
use rust_tokenizers::tokenization_utils::TruncationStrategy;
use rust_tokenizers::tokenizer::BaseTokenizer;
use rust_tokenizers::tokens::ConsolidatableTokens;
use rust_tokenizers::tokens::Mask;
use rust_tokenizers::tokens::TokenRef;
use rust_tokenizers::tokens::TokenTrait;
use rust_tokenizers::tokens::Offset;
use rust_tokenizers::tokens::Token;
use rust_tokenizers::vocab::swap_key_values;
use rust_tokenizers::vocab::BaseVocab;
use rust_tokenizers::vocab::Vocab;

fn test_vocab() -> BaseVocab {
    let values: Vec<(String, i64)> = vec![
        ("hello".to_string(), 0),
        ("world".to_string(), 1),
        ("[UNK]".to_string(), 2),
        ("!".to_string(), 3),
        ("[CLS]".to_string(), 4),
        ("[SEP]".to_string(), 5),
        ("[MASK]".to_string(), 6),
        ("中".to_string(), 7),
        ("华".to_string(), 8),
        ("人".to_string(), 9),
        ("[PAD]".to_string(), 10),
    ];
    let special_values: Vec<(String, i64)> = vec![
        ("[UNK]".to_string(), 2),
        ("[CLS]".to_string(), 4),
        ("[SEP]".to_string(), 5),
        ("[MASK]".to_string(), 6),
        ("[PAD]".to_string(), 10),
    ];
    let indices = swap_key_values(&values);
    let special_indices = swap_key_values(&special_values);
    BaseVocab {
        values,
        indices,
        unknown_value: "[UNK]".to_string(),
        special_values,
        special_indices,
    }
}

#[test]
fn test_stride_overflow_overlap() {
    let tokenizer: BaseTokenizer<BaseVocab> =
        BaseTokenizer::from_existing_vocab(Arc::new(test_vocab()), true, true);
    let text = "[UNK] a ! c ! e ! g ! i ! [PAD] a ! c ! e ! g ! i !";
    let encoded = tokenizer
        .encode(text, None, 10, &TruncationStrategy::LongestFirst, 2)
        .unwrap();
    assert_eq!(encoded.num_truncated_tokens, 12);
    assert_eq!(
        encoded.overflowing_tokens,
        vec![3, 2, 3, 10, 2, 3, 2, 3, 2, 3, 2, 3, 2, 3]
    );
    // The first `stride` overflowing IDs replay the last kept IDs.
    let kept = &encoded.token_ids;
    assert_eq!(encoded.overflowing_tokens[..2], kept[kept.len() - 2..]);
}

#[test]
fn test_encode_do_not_truncate_error() {
    let tokenizer: BaseTokenizer<BaseVocab> =
        BaseTokenizer::from_existing_vocab(Arc::new(test_vocab()), true, true);
    let result = tokenizer.encode(
        "hello world hello world hello",
        None,
        2,
        &TruncationStrategy::DoNotTruncate,
        0,
    );
    match result {
        Err(TokenizerError::ValueError(_)) => {}
        _ => panic!("expected a ValueError"),
    }
}

#[test]
fn test_encode_only_second_single_sentence_error() {
    let tokenizer: BaseTokenizer<BaseVocab> =
        BaseTokenizer::from_existing_vocab(Arc::new(test_vocab()), true, true);
    let result = tokenizer.encode(
        "hello world hello world hello",
        None,
        2,
        &TruncationStrategy::OnlySecond,
        0,
    );
    match result {
        Err(TokenizerError::ValueError(_)) => {}
        _ => panic!("expected a ValueError"),
    }
}

#[test]
fn test_encode_only_first_too_short_error() {
    let tokenizer: BaseTokenizer<BaseVocab> =
        BaseTokenizer::from_existing_vocab(Arc::new(test_vocab()), true, true);
    let result = tokenizer.encode(
        "hello",
        Some("hello world hello world hello world hello"),
        2,
        &TruncationStrategy::OnlyFirst,
        0,
    );
    match result {
        Err(TokenizerError::ValueError(_)) => {}
        _ => panic!("expected a ValueError"),
    }
}

#[test]
fn test_consolidation_covers_all_tokens() {
    let tokens = vec![
        Token {
            text: "una".to_owned(),
            offset: Offset::new(0, 3),
            reference_offsets: vec![0, 1, 2],
            mask: Mask::Begin,
        },
        Token {
            text: "##ffa".to_owned(),
            offset: Offset::new(3, 6),
            reference_offsets: vec![3, 4, 5],
            mask: Mask::Continuation,
        },
        Token {
            text: "##ble".to_owned(),
            offset: Offset::new(6, 9),
            reference_offsets: vec![6, 7, 8],
            mask: Mask::Continuation,
        },
        Token {
            text: "world".to_owned(),
            offset: Offset::new(10, 15),
            reference_offsets: vec![10, 11, 12, 13, 14],
            mask: Mask::Plain,
        },
    ];
    let mut iter = tokens.iter_consolidate_tokens();
    let mut collected: Vec<Token> = Vec::new();
    while let Some(group) = iter.next() {
        collected.extend(group.iter().cloned());
    }
    // Concatenating the groups in order yields the original sequence, with
    // no gaps and no duplicates.
    assert_eq!(collected, tokens);
}

#[test]
fn test_offset_into_option() {
    assert_eq!(Offset::new(2, 5).into_option(), Some(Offset::new(2, 5)));
    assert_eq!(Offset::new(5, 5).into_option(), None);
    assert_eq!(Offset::new(5, 2).into_option(), None);
}

#[test]
fn test_albert_vocab_from_pieces() {
    let pieces: Vec<String> = vec![
        "<pad>".to_string(),
        "<unk>".to_string(),
        "[CLS]".to_string(),
        "[SEP]".to_string(),
        "[MASK]".to_string(),
        "hello".to_string(),
        "world".to_string(),
    ];
    let vocab = AlbertVocab::from_pieces(&pieces).unwrap();
    assert_eq!(vocab.token_to_id("hello"), 5);
    assert_eq!(vocab.token_to_id("world"), 6);
    assert_eq!(vocab.token_to_id("out-of-vocabulary"), 1);
    assert_eq!(vocab.id_to_token(&0), "<pad>");
    assert_eq!(vocab.id_to_token(&4), "[MASK]");
    assert_eq!(vocab.unknown_value, AlbertVocab::unknown_value());
    assert_eq!(AlbertVocab::bos_value(), "[CLS]");
    assert_eq!(AlbertVocab::eos_value(), "[SEP]");
    assert_eq!(AlbertVocab::sep_value(), "[SEP]");
    assert_eq!(AlbertVocab::cls_value(), "[CLS]");
    assert_eq!(AlbertVocab::mask_value(), "[MASK]");
    assert_eq!(AlbertVocab::pad_value(), "<pad>");
}

#[test]
fn test_albert_vocab_missing_marker() {
    let pieces: Vec<String> = vec!["<unk>".to_string(), "hello".to_string()];
    match AlbertVocab::from_pieces(&pieces) {
        Err(TokenizerError::TokenNotFound(_)) => {}
        _ => panic!("expected a TokenNotFound error"),
    }
}

fn sp_piece_message(piece: &str) -> Vec<u8> {
    // A SentencePiece submessage: field 1 (the piece string) followed by a
    // score field (field 2, 32-bit), which the reader must skip.
    let mut sub: Vec<u8> = vec![0x0A, piece.len() as u8];
    sub.extend_from_slice(piece.as_bytes());
    sub.extend_from_slice(&[0x15, 0, 0, 0, 0]);
    let mut field: Vec<u8> = vec![0x0A, sub.len() as u8];
    field.extend_from_slice(&sub);
    field
}

#[test]
fn test_albert_vocab_from_model_bytes() {
    let mut model: Vec<u8> = Vec::new();
    for piece in ["<pad>", "<unk>", "[CLS]", "[SEP]", "[MASK]", "hello"] {
        model.extend_from_slice(&sp_piece_message(piece));
    }
    // A trailing varint field the reader must skip.
    model.extend_from_slice(&[0x18, 0x05]);
    let vocab = AlbertVocab::from_model(&model).unwrap();
    assert_eq!(vocab.token_to_id("hello"), 5);
    assert_eq!(vocab.token_to_id("never-seen"), 1);
    assert_eq!(vocab.id_to_token(&2), "[CLS]");
}

#[test]
fn test_albert_vocab_from_model_malformed() {
    let model: Vec<u8> = vec![0x0A, 0xFF, 0x01];
    match AlbertVocab::from_model(&model) {
        Err(TokenizerError::VocabularyParsingError(_)) => {}
        _ => panic!("expected a VocabularyParsingError"),
    }
}

#[test]
fn test_lowercase_changes_text() {
    // The lowercasing transform must rewrite the characters, not hand the
    // input back.
    let tokenizer: BaseTokenizer<BaseVocab> =
        BaseTokenizer::from_existing_vocab(Arc::new(test_vocab()), true, false);
    let tokens = tokenizer.tokenize("HELLO WoRlD");
    assert_eq!(tokens, vec!["hello", "world"]);
}

#[test]
fn test_accent_stripping_changes_text() {
    // Canonical decomposition must drop the combining marks of accented
    // characters, not hand the input back.
    let tokenizer: BaseTokenizer<BaseVocab> =
        BaseTokenizer::from_existing_vocab(Arc::new(test_vocab()), false, true);
    let tokens = tokenizer.tokenize("caf\u{e9} na\u{ef}ve");
    assert_eq!(tokens, vec!["cafe", "naive"]);
}

#[test]
fn test_clean_up_quirk_do_not() {
    // The fixed substitution list turns " do not" into " don't"; the order
    // of the list is observable and deliberately preserved.
    let tokenizer: BaseTokenizer<BaseVocab> =
        BaseTokenizer::from_existing_vocab(Arc::new(test_vocab()), true, true);
    let cleaned = tokenizer.clean_up_tokenization("i do not know .".to_string());
    assert_eq!(cleaned, "i don't know.");
}

#[test]
fn test_consolidation_over_borrowed_tokens() {
    let refs_a: Vec<u32> = vec![0, 1];
    let refs_b: Vec<u32> = vec![2, 3, 4];
    let refs_c: Vec<u32> = vec![6];
    let mut a = TokenRef::new("he", &refs_a);
    a.mask = Mask::Begin;
    let mut b = TokenRef::new("llo", &refs_b);
    b.mask = Mask::Continuation;
    let c = TokenRef::new("!", &refs_c);
    let tokens = vec![a, b, c];
    let mut iter = tokens.iter_consolidate_tokens();
    assert_eq!(iter.next(), Some(&tokens[0..2]));
    assert_eq!(iter.next(), Some(&tokens[2..3]));
    assert_eq!(iter.next(), None);
    assert_eq!(a.as_str(), "he");
    assert_eq!(a.mask(), Mask::Begin);
    assert_eq!(a.offset(), Some(Offset::new(0, 2)));
    assert_eq!(Offset::new(3, 3).into_option(), None);
}

#[test]
fn test_unicode_punctuation_is_split() {
    // Curly quotes carry the Unicode punctuation category and must be
    // isolated exactly like ASCII punctuation.
    let tokenizer: BaseTokenizer<BaseVocab> =
        BaseTokenizer::from_existing_vocab(Arc::new(test_vocab()), true, true);
    let (tokens, offsets, _, masks) = tokenizer.tokenize_with_offsets("\u{201C}hello\u{201D}");
    assert_eq!(tokens, vec!["\u{201C}", "hello", "\u{201D}"]);
    assert_eq!(
        offsets,
        vec![
            Some(Offset::new(0, 1)),
            Some(Offset::new(1, 6)),
            Some(Offset::new(6, 7)),
        ]
    );
    assert_eq!(
        masks,
        vec![Mask::Punctuation, Mask::Plain, Mask::Punctuation]
    );
    // The ideographic comma as well, though it is no CJK ideograph.
    let (tokens, _, _, masks) = tokenizer.tokenize_with_offsets("a\u{3001}b");
    assert_eq!(tokens, vec!["a", "\u{3001}", "b"]);
    assert_eq!(masks, vec![Mask::Plain, Mask::Punctuation, Mask::Plain]);
}
