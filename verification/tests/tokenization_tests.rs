use std::sync::Arc;

use rayon::iter::IntoParallelRefIterator;
use rayon::iter::ParallelIterator;

use rust_tokenizers::tokenization_utils::TruncationStrategy;
use rust_tokenizers::tokenizer::BaseTokenizer;
use rust_tokenizers::tokens::ConsolidatableTokens;
use rust_tokenizers::tokens::Mask;
use rust_tokenizers::tokens::Offset;
use rust_tokenizers::tokens::Token;
use rust_tokenizers::tokens::TokenizedInput;
use rust_tokenizers::vocab::swap_key_values;
use rust_tokenizers::vocab::BaseVocab;

fn generate_test_vocab() -> BaseVocab {
    let values: Vec<(String, i64)> = vec![
        ("hello".to_string(), 0),
        ("world".to_string(), 1),
        ("[UNK]".to_string(), 2),
        ("!".to_string(), 3),
        ("[CLS]".to_string(), 4),
        ("[SEP]".to_string(), 5),
        ("[MASK]".to_string(), 6),
        ("中".to_string(), 7),
        ("华".to_string(), 8),
        ("人".to_string(), 9),
        ("[PAD]".to_string(), 10),
        ("una".to_string(), 11),
        ("##ffa".to_string(), 12),
        ("##ble".to_string(), 13),
    ];

    let special_values: Vec<(String, i64)> = vec![
        ("[UNK]".to_string(), 2),
        ("[CLS]".to_string(), 4),
        ("[SEP]".to_string(), 5),
        ("[MASK]".to_string(), 6),
        ("[PAD]".to_string(), 10),
    ];

    let indices = swap_key_values(&values);
    let special_indices = swap_key_values(&special_values);

    BaseVocab {
        values,
        indices,
        unknown_value: "[UNK]".to_string(),
        special_values,
        special_indices,
    }
}

type OffsetRow = (Vec<String>, Vec<Option<Offset>>, Vec<Vec<u32>>, Vec<Mask>);

fn check_row(
    row: &OffsetRow,
    tokens: &[&str],
    offsets: &[Option<Offset>],
    positions: &[Vec<u32>],
    masks: &[Mask],
) {
    let texts: Vec<&str> = row.0.iter().map(|t| t.as_str()).collect();
    assert_eq!(texts, tokens);
    assert_eq!(row.1, offsets);
    assert_eq!(row.2, positions);
    assert_eq!(row.3, masks);
}

struct ExpectedRow {
    source: &'static str,
    tokens: Vec<&'static str>,
    offsets: Vec<Option<Offset>>,
    positions: Vec<Vec<u32>>,
    masks: Vec<Mask>,
}

fn lowercased_rows() -> Vec<ExpectedRow> {
    vec![
        ExpectedRow {
            source: "Sentence with [MASK] token.",
            tokens: vec!["sentence", "with", "[MASK]", "token", "."],
            offsets: vec![
                Some(Offset::new(0, 8)),
                Some(Offset::new(9, 13)),
                Some(Offset::new(14, 20)),
                Some(Offset::new(21, 26)),
                Some(Offset::new(26, 27)),
            ],
            positions: vec![
                vec![0, 1, 2, 3, 4, 5, 6, 7],
                vec![9, 10, 11, 12],
                vec![14, 15, 16, 17, 18, 19],
                vec![21, 22, 23, 24, 25],
                vec![26],
            ],
            masks: vec![
                Mask::Plain,
                Mask::Plain,
                Mask::Special,
                Mask::Plain,
                Mask::Punctuation,
            ],
        },
        ExpectedRow {
            source: "[CLS]",
            tokens: vec!["[CLS]"],
            offsets: vec![Some(Offset::new(0, 5))],
            positions: vec![vec![0, 1, 2, 3, 4]],
            masks: vec![Mask::Special],
        },
        ExpectedRow {
            source: "[CLS] [PAD]",
            tokens: vec!["[CLS]", "[PAD]"],
            offsets: vec![Some(Offset::new(0, 5)), Some(Offset::new(6, 11))],
            positions: vec![vec![0, 1, 2, 3, 4], vec![6, 7, 8, 9, 10]],
            masks: vec![Mask::Special, Mask::Special],
        },
        ExpectedRow {
            source: "[CLS]       [PAD]",
            tokens: vec!["[CLS]", "[PAD]"],
            offsets: vec![Some(Offset::new(0, 5)), Some(Offset::new(12, 17))],
            positions: vec![vec![0, 1, 2, 3, 4], vec![12, 13, 14, 15, 16]],
            masks: vec![Mask::Special, Mask::Special],
        },
        ExpectedRow {
            source: "asdf",
            tokens: vec!["asdf"],
            offsets: vec![Some(Offset::new(0, 4))],
            positions: vec![vec![0, 1, 2, 3]],
            masks: vec![Mask::Plain],
        },
        ExpectedRow {
            source: "",
            tokens: vec![],
            offsets: vec![],
            positions: vec![],
            masks: vec![],
        },
        ExpectedRow {
            source: "Allons, Flipote, allons; que d'eux je me délivre.",
            tokens: vec![
                "allons", ",", "flipote", ",", "allons", ";", "que", "d", "'", "eux", "je", "me",
                "delivre", ".",
            ],
            offsets: vec![
                Some(Offset { begin: 0, end: 6 }),
                Some(Offset { begin: 6, end: 7 }),
                Some(Offset { begin: 8, end: 15 }),
                Some(Offset { begin: 15, end: 16 }),
                Some(Offset { begin: 17, end: 23 }),
                Some(Offset { begin: 23, end: 24 }),
                Some(Offset { begin: 25, end: 28 }),
                Some(Offset { begin: 29, end: 30 }),
                Some(Offset { begin: 30, end: 31 }),
                Some(Offset { begin: 31, end: 34 }),
                Some(Offset { begin: 35, end: 37 }),
                Some(Offset { begin: 38, end: 40 }),
                Some(Offset { begin: 41, end: 48 }),
                Some(Offset { begin: 48, end: 49 }),
            ],
            positions: vec![
                vec![0, 1, 2, 3, 4, 5],
                vec![6],
                vec![8, 9, 10, 11, 12, 13, 14],
                vec![15],
                vec![17, 18, 19, 20, 21, 22],
                vec![23],
                vec![25, 26, 27],
                vec![29],
                vec![30],
                vec![31, 32, 33],
                vec![35, 36],
                vec![38, 39],
                vec![41, 42, 43, 44, 45, 46, 47],
                vec![48],
            ],
            masks: vec![
                Mask::Plain,
                Mask::Punctuation,
                Mask::Plain,
                Mask::Punctuation,
                Mask::Plain,
                Mask::Punctuation,
                Mask::Plain,
                Mask::Plain,
                Mask::Punctuation,
                Mask::Plain,
                Mask::Plain,
                Mask::Plain,
                Mask::Plain,
                Mask::Punctuation,
            ],
        },
        ExpectedRow {
            source: "[UNK]中华人民共和国 [PAD] asdf",
            tokens: vec![
                "[UNK]", "中", "华", "人", "民", "共", "和", "国", "[PAD]", "asdf",
            ],
            offsets: vec![
                Some(Offset { begin: 0, end: 5 }),
                Some(Offset { begin: 5, end: 6 }),
                Some(Offset { begin: 6, end: 7 }),
                Some(Offset { begin: 7, end: 8 }),
                Some(Offset { begin: 8, end: 9 }),
                Some(Offset { begin: 9, end: 10 }),
                Some(Offset { begin: 10, end: 11 }),
                Some(Offset { begin: 11, end: 12 }),
                Some(Offset { begin: 13, end: 18 }),
                Some(Offset { begin: 19, end: 23 }),
            ],
            positions: vec![
                vec![0, 1, 2, 3, 4],
                vec![5],
                vec![6],
                vec![7],
                vec![8],
                vec![9],
                vec![10],
                vec![11],
                vec![13, 14, 15, 16, 17],
                vec![19, 20, 21, 22],
            ],
            masks: vec![
                Mask::Unknown,
                Mask::CJK,
                Mask::CJK,
                Mask::CJK,
                Mask::CJK,
                Mask::CJK,
                Mask::CJK,
                Mask::CJK,
                Mask::Special,
                Mask::Plain,
            ],
        },
    ]
}

#[test]
fn test_base_tokenizer() {
    //        Given
    let vocab = Arc::new(generate_test_vocab());
    let base_tokenizer: BaseTokenizer<BaseVocab> =
        BaseTokenizer::from_existing_vocab(vocab, true, true);
    let rows = lowercased_rows();
    let source_texts: Vec<&str> = rows.iter().map(|r| r.source).collect();

    //        When & Then
    for row in rows.iter() {
        let result = base_tokenizer.tokenize_with_offsets(row.source);
        check_row(&result, &row.tokens, &row.offsets, &row.positions, &row.masks);
    }

    let results = base_tokenizer.tokenize_list_with_offsets(source_texts.clone());
    for (row, result) in rows.iter().zip(results.iter()) {
        check_row(result, &row.tokens, &row.offsets, &row.positions, &row.masks);
    }

    let results: Vec<OffsetRow> = source_texts
        .par_iter()
        .map(|text| base_tokenizer.tokenize_with_offsets(text))
        .collect();
    for (row, result) in rows.iter().zip(results.iter()) {
        check_row(result, &row.tokens, &row.offsets, &row.positions, &row.masks);
    }
}

#[test]
fn test_no_lower_casing() {
    //        Given
    let vocab = Arc::new(generate_test_vocab());
    let base_tokenizer: BaseTokenizer<BaseVocab> =
        BaseTokenizer::from_existing_vocab(vocab, false, true);
    let mut rows = lowercased_rows();
    // Without lowercasing, cased words keep their case; accents are still
    // stripped.
    rows[0].tokens = vec!["Sentence", "with", "[MASK]", "token", "."];
    rows[4].source = "aSdF";
    rows[4].tokens = vec!["aSdF"];
    rows[6].tokens = vec![
        "Allons", ",", "Flipote", ",", "allons", ";", "que", "d", "'", "eux", "je", "me",
        "delivre", ".",
    ];
    let source_texts: Vec<&str> = rows.iter().map(|r| r.source).collect();

    //        When & Then
    for row in rows.iter() {
        let result = base_tokenizer.tokenize_with_offsets(row.source);
        check_row(&result, &row.tokens, &row.offsets, &row.positions, &row.masks);
    }

    let results = base_tokenizer.tokenize_list_with_offsets(source_texts.clone());
    for (row, result) in rows.iter().zip(results.iter()) {
        check_row(result, &row.tokens, &row.offsets, &row.positions, &row.masks);
    }

    let results: Vec<OffsetRow> = source_texts
        .par_iter()
        .map(|text| base_tokenizer.tokenize_with_offsets(text))
        .collect();
    for (row, result) in rows.iter().zip(results.iter()) {
        check_row(result, &row.tokens, &row.offsets, &row.positions, &row.masks);
    }
}

#[test]
fn test_convert_tokens_to_ids() {
    //        Given
    let vocab = Arc::new(generate_test_vocab());
    let base_tokenizer: BaseTokenizer<BaseVocab> =
        BaseTokenizer::from_existing_vocab(vocab, true, true);
    let test_tuples: Vec<(Vec<&str>, Vec<i64>)> = vec![
        (vec!["hello", "[MASK]", "world", "!"], vec![0, 6, 1, 3]),
        (
            vec!["hello", ",", "una", "##ffa", "##ble", "world", "!"],
            vec![0, 2, 11, 12, 13, 1, 3],
        ),
        (
            vec![
                "[UNK]", "[UNK]", "华", "[UNK]", "[UNK]", "[UNK]", "[UNK]", "[UNK]", "[PAD]",
                "[UNK]",
            ],
            vec![2, 2, 8, 2, 2, 2, 2, 2, 10, 2],
        ),
    ];

    //        When & Then
    for (source_text, expected_result) in test_tuples.iter() {
        let tokens: Vec<String> = source_text.iter().map(|v| String::from(*v)).collect();
        assert_eq!(base_tokenizer.convert_tokens_to_ids(&tokens), *expected_result);
    }
}

#[test]
fn test_encode_single_sentence() {
    //        Given
    let vocab = Arc::new(generate_test_vocab());
    let base_tokenizer: BaseTokenizer<BaseVocab> =
        BaseTokenizer::from_existing_vocab(vocab, true, true);
    let truncation_strategy = TruncationStrategy::LongestFirst;
    let test_tuples = [
        (
            "hello world!",
            TokenizedInput {
                token_ids: vec![0, 1, 3],
                segment_ids: vec![0, 0, 0],
                special_tokens_mask: vec![0, 0, 0],
                overflowing_tokens: vec![],
                num_truncated_tokens: 0,
                token_offsets: vec![
                    Some(Offset::new(0, 5)),
                    Some(Offset::new(6, 11)),
                    Some(Offset::new(11, 12)),
                ],
                reference_offsets: vec![vec![0, 1, 2, 3, 4], vec![6, 7, 8, 9, 10], vec![11]],
                mask: vec![Mask::Plain, Mask::Plain, Mask::Punctuation],
            },
        ),
        (
            "hello, unaffable world!",
            TokenizedInput {
                token_ids: vec![0, 2, 2, 1, 3],
                segment_ids: vec![0, 0, 0, 0, 0],
                special_tokens_mask: vec![0, 0, 0, 0, 0],
                overflowing_tokens: vec![],
                num_truncated_tokens: 0,
                token_offsets: vec![
                    Some(Offset::new(0, 5)),
                    Some(Offset::new(5, 6)),
                    Some(Offset::new(7, 16)),
                    Some(Offset::new(17, 22)),
                    Some(Offset::new(22, 23)),
                ],
                reference_offsets: vec![
                    vec![0, 1, 2, 3, 4],
                    vec![5],
                    vec![7, 8, 9, 10, 11, 12, 13, 14, 15],
                    vec![17, 18, 19, 20, 21],
                    vec![22],
                ],
                mask: vec![
                    Mask::Plain,
                    Mask::Punctuation,
                    Mask::Plain,
                    Mask::Plain,
                    Mask::Punctuation,
                ],
            },
        ),
        (
            "[UNK]中华人民共和国 [PAD] asdf",
            TokenizedInput {
                token_ids: vec![2, 7, 8, 9, 2, 2, 2, 2, 10, 2],
                segment_ids: vec![0, 0, 0, 0, 0, 0, 0, 0, 0, 0],
                special_tokens_mask: vec![0, 0, 0, 0, 0, 0, 0, 0, 0, 0],
                overflowing_tokens: vec![],
                num_truncated_tokens: 0,
                token_offsets: vec![
                    Some(Offset { begin: 0, end: 5 }),
                    Some(Offset { begin: 5, end: 6 }),
                    Some(Offset { begin: 6, end: 7 }),
                    Some(Offset { begin: 7, end: 8 }),
                    Some(Offset { begin: 8, end: 9 }),
                    Some(Offset { begin: 9, end: 10 }),
                    Some(Offset { begin: 10, end: 11 }),
                    Some(Offset { begin: 11, end: 12 }),
                    Some(Offset { begin: 13, end: 18 }),
                    Some(Offset { begin: 19, end: 23 }),
                ],
                reference_offsets: vec![
                    vec![0, 1, 2, 3, 4],
                    vec![5],
                    vec![6],
                    vec![7],
                    vec![8],
                    vec![9],
                    vec![10],
                    vec![11],
                    vec![13, 14, 15, 16, 17],
                    vec![19, 20, 21, 22],
                ],
                mask: vec![
                    Mask::Unknown,
                    Mask::CJK,
                    Mask::CJK,
                    Mask::CJK,
                    Mask::CJK,
                    Mask::CJK,
                    Mask::CJK,
                    Mask::CJK,
                    Mask::Special,
                    Mask::Plain,
                ],
            },
        ),
        (
            "[UNK] a ! c ! e ! g ! i ! [PAD] a ! c ! e ! g ! i !",
            TokenizedInput {
                token_ids: vec![2, 2, 3, 2, 3, 2, 3, 2, 3, 2],
                segment_ids: vec![0, 0, 0, 0, 0, 0, 0, 0, 0, 0],
                special_tokens_mask: vec![0, 0, 0, 0, 0, 0, 0, 0, 0, 0],
                overflowing_tokens: vec![3, 10, 2, 3, 2, 3, 2, 3, 2, 3, 2, 3],
                num_truncated_tokens: 12,
                token_offsets: vec![
                    Some(Offset { begin: 0, end: 5 }),
                    Some(Offset { begin: 6, end: 7 }),
                    Some(Offset { begin: 8, end: 9 }),
                    Some(Offset { begin: 10, end: 11 }),
                    Some(Offset { begin: 12, end: 13 }),
                    Some(Offset { begin: 14, end: 15 }),
                    Some(Offset { begin: 16, end: 17 }),
                    Some(Offset { begin: 18, end: 19 }),
                    Some(Offset { begin: 20, end: 21 }),
                    Some(Offset { begin: 22, end: 23 }),
                ],
                reference_offsets: vec![
                    vec![0, 1, 2, 3, 4],
                    vec![6],
                    vec![8],
                    vec![10],
                    vec![12],
                    vec![14],
                    vec![16],
                    vec![18],
                    vec![20],
                    vec![22],
                ],
                mask: vec![
                    Mask::Unknown,
                    Mask::Plain,
                    Mask::Punctuation,
                    Mask::Plain,
                    Mask::Punctuation,
                    Mask::Plain,
                    Mask::Punctuation,
                    Mask::Plain,
                    Mask::Punctuation,
                    Mask::Plain,
                ],
            },
        ),
    ];
    let source_texts: Vec<&str> = test_tuples.iter().map(|v| v.0).collect();
    let expected_results: Vec<TokenizedInput> = test_tuples.iter().map(|v| v.1.clone()).collect();

    //        When & Then
    for (source_text, expected_result) in test_tuples.iter() {
        let tokenized_input = base_tokenizer
            .encode(source_text, None, 10, &truncation_strategy, 0)
            .unwrap();
        assert_eq!(
            tokenized_input.token_ids.len(),
            tokenized_input.token_offsets.len(),
            "Offsets and tokens must have same length"
        );
        assert_eq!(tokenized_input, *expected_result, "Testing results");
    }
    assert_eq!(
        base_tokenizer
            .encode_list(source_texts.clone(), 10, &truncation_strategy, 0)
            .unwrap(),
        expected_results
    );
    let parallel_results: Vec<TokenizedInput> = source_texts
        .par_iter()
        .map(|text| {
            base_tokenizer
                .encode(text, None, 10, &truncation_strategy, 0)
                .unwrap()
        })
        .collect();
    assert_eq!(parallel_results, expected_results);
}

#[test]
fn test_encode_sentence_pair() {
    //        Given
    let vocab = Arc::new(generate_test_vocab());
    let base_tokenizer: BaseTokenizer<BaseVocab> =
        BaseTokenizer::from_existing_vocab(vocab, true, true);
    let truncation_strategy = TruncationStrategy::LongestFirst;
    let test_tuples = [
        //            No truncation required
        (
            ("hello world!", "This is the second sentence"),
            TokenizedInput {
                token_ids: vec![0, 1, 3, 2, 2, 2, 2, 2],
                segment_ids: vec![0, 0, 0, 1, 1, 1, 1, 1],
                special_tokens_mask: vec![0, 0, 0, 0, 0, 0, 0, 0],
                overflowing_tokens: vec![],
                num_truncated_tokens: 0,
                token_offsets: vec![
                    Some(Offset::new(0, 5)),
                    Some(Offset::new(6, 11)),
                    Some(Offset::new(11, 12)),
                    Some(Offset::new(0, 4)),
                    Some(Offset::new(5, 7)),
                    Some(Offset::new(8, 11)),
                    Some(Offset::new(12, 18)),
                    Some(Offset::new(19, 27)),
                ],
                reference_offsets: vec![
                    vec![0, 1, 2, 3, 4],
                    vec![6, 7, 8, 9, 10],
                    vec![11],
                    vec![0, 1, 2, 3],
                    vec![5, 6],
                    vec![8, 9, 10],
                    vec![12, 13, 14, 15, 16, 17],
                    vec![19, 20, 21, 22, 23, 24, 25, 26],
                ],
                mask: vec![
                    Mask::Plain,
                    Mask::Plain,
                    Mask::Punctuation,
                    Mask::Plain,
                    Mask::Plain,
                    Mask::Plain,
                    Mask::Plain,
                    Mask::Plain,
                ],
            },
        ),
        //            Truncation of sentence 2 (longest)
        (
            ("hello world!", "!This is the second sentence!!!"),
            TokenizedInput {
                token_ids: vec![0, 1, 3, 3, 2, 2, 2, 2, 2, 3],
                segment_ids: vec![0, 0, 0, 1, 1, 1, 1, 1, 1, 1],
                special_tokens_mask: vec![0, 0, 0, 0, 0, 0, 0, 0, 0, 0],
                overflowing_tokens: vec![],
                num_truncated_tokens: 2,
                token_offsets: vec![
                    Some(Offset { begin: 0, end: 5 }),
                    Some(Offset { begin: 6, end: 11 }),
                    Some(Offset { begin: 11, end: 12 }),
                    Some(Offset { begin: 0, end: 1 }),
                    Some(Offset { begin: 1, end: 5 }),
                    Some(Offset { begin: 6, end: 8 }),
                    Some(Offset { begin: 9, end: 12 }),
                    Some(Offset { begin: 13, end: 19 }),
                    Some(Offset { begin: 20, end: 28 }),
                    Some(Offset { begin: 28, end: 29 }),
                ],
                reference_offsets: vec![
                    vec![0, 1, 2, 3, 4],
                    vec![6, 7, 8, 9, 10],
                    vec![11],
                    vec![0],
                    vec![1, 2, 3, 4],
                    vec![6, 7],
                    vec![9, 10, 11],
                    vec![13, 14, 15, 16, 17, 18],
                    vec![20, 21, 22, 23, 24, 25, 26, 27],
                    vec![28],
                ],
                mask: vec![
                    Mask::Plain,
                    Mask::Plain,
                    Mask::Punctuation,
                    Mask::Punctuation,
                    Mask::Plain,
                    Mask::Plain,
                    Mask::Plain,
                    Mask::Plain,
                    Mask::Plain,
                    Mask::Punctuation,
                ],
            },
        ),
        //            Truncation of sentence 1 (longest)
        (
            (
                "[UNK] hello  hello  hello  hello  hello  hello  hello  hello  hello  hello  hello",
                "!!!",
            ),
            TokenizedInput {
                token_ids: vec![2, 0, 0, 0, 0, 0, 0, 3, 3, 3],
                segment_ids: vec![0, 0, 0, 0, 0, 0, 0, 1, 1, 1],
                special_tokens_mask: vec![0, 0, 0, 0, 0, 0, 0, 0, 0, 0],
                overflowing_tokens: vec![0, 0, 0, 0, 0],
                num_truncated_tokens: 5,
                token_offsets: vec![
                    Some(Offset { begin: 0, end: 5 }),
                    Some(Offset { begin: 6, end: 11 }),
                    Some(Offset { begin: 13, end: 18 }),
                    Some(Offset { begin: 20, end: 25 }),
                    Some(Offset { begin: 27, end: 32 }),
                    Some(Offset { begin: 34, end: 39 }),
                    Some(Offset { begin: 41, end: 46 }),
                    Some(Offset { begin: 0, end: 1 }),
                    Some(Offset { begin: 1, end: 2 }),
                    Some(Offset { begin: 2, end: 3 }),
                ],
                reference_offsets: vec![
                    vec![0, 1, 2, 3, 4],
                    vec![6, 7, 8, 9, 10],
                    vec![13, 14, 15, 16, 17],
                    vec![20, 21, 22, 23, 24],
                    vec![27, 28, 29, 30, 31],
                    vec![34, 35, 36, 37, 38],
                    vec![41, 42, 43, 44, 45],
                    vec![0],
                    vec![1],
                    vec![2],
                ],
                mask: vec![
                    Mask::Unknown,
                    Mask::Plain,
                    Mask::Plain,
                    Mask::Plain,
                    Mask::Plain,
                    Mask::Plain,
                    Mask::Plain,
                    Mask::Punctuation,
                    Mask::Punctuation,
                    Mask::Punctuation,
                ],
            },
        ),
        //            Truncation of both sentences (longest)
        (
            ("[UNK] hello  hello  hello  hello  hello", "!!!!!!!!"),
            TokenizedInput {
                token_ids: vec![2, 0, 0, 0, 0, 3, 3, 3, 3, 3],
                segment_ids: vec![0, 0, 0, 0, 0, 1, 1, 1, 1, 1],
                special_tokens_mask: vec![0, 0, 0, 0, 0, 0, 0, 0, 0, 0],
                overflowing_tokens: vec![0],
                num_truncated_tokens: 4,
                token_offsets: vec![
                    Some(Offset { begin: 0, end: 5 }),
                    Some(Offset { begin: 6, end: 11 }),
                    Some(Offset { begin: 13, end: 18 }),
                    Some(Offset { begin: 20, end: 25 }),
                    Some(Offset { begin: 27, end: 32 }),
                    Some(Offset { begin: 0, end: 1 }),
                    Some(Offset { begin: 1, end: 2 }),
                    Some(Offset { begin: 2, end: 3 }),
                    Some(Offset { begin: 3, end: 4 }),
                    Some(Offset { begin: 4, end: 5 }),
                ],
                reference_offsets: vec![
                    vec![0, 1, 2, 3, 4],
                    vec![6, 7, 8, 9, 10],
                    vec![13, 14, 15, 16, 17],
                    vec![20, 21, 22, 23, 24],
                    vec![27, 28, 29, 30, 31],
                    vec![0],
                    vec![1],
                    vec![2],
                    vec![3],
                    vec![4],
                ],
                mask: vec![
                    Mask::Unknown,
                    Mask::Plain,
                    Mask::Plain,
                    Mask::Plain,
                    Mask::Plain,
                    Mask::Punctuation,
                    Mask::Punctuation,
                    Mask::Punctuation,
                    Mask::Punctuation,
                    Mask::Punctuation,
                ],
            },
        ),
    ];
    let source_texts: Vec<(&str, &str)> = test_tuples.iter().map(|v| v.0).collect();
    let expected_results: Vec<TokenizedInput> = test_tuples.iter().map(|v| v.1.clone()).collect();

    //        When & Then
    for (source_text, expected_result) in test_tuples.iter() {
        let tokenized_input = base_tokenizer
            .encode(source_text.0, Some(source_text.1), 10, &truncation_strategy, 0)
            .unwrap();
        assert_eq!(
            tokenized_input.token_ids.len(),
            tokenized_input.token_offsets.len(),
            "Offsets and tokens must have same length"
        );
        assert_eq!(tokenized_input, *expected_result, "Testing results");
    }
    assert_eq!(
        base_tokenizer
            .encode_pair_list(source_texts.clone(), 10, &truncation_strategy, 0)
            .unwrap(),
        expected_results
    );
    let parallel_results: Vec<TokenizedInput> = source_texts
        .par_iter()
        .map(|pair| {
            base_tokenizer
                .encode(pair.0, Some(pair.1), 10, &truncation_strategy, 0)
                .unwrap()
        })
        .collect();
    assert_eq!(parallel_results, expected_results);
}

#[test]
fn test_decode() {
    //        Given
    let vocab = Arc::new(generate_test_vocab());
    let base_tokenizer: BaseTokenizer<BaseVocab> =
        BaseTokenizer::from_existing_vocab(vocab, true, true);
    let skip_special_tokens = false;
    let clean_up_tokenization_spaces = false;
    let test_tuples = [
        (vec![0i64, 1, 3], "hello world !"),
        (vec![10, 0, 1, 3], "[PAD] hello world !"),
        (vec![10, 0, 1, 2, 3], "[PAD] hello world [UNK] !"),
    ];
    let source_ids: Vec<Vec<i64>> = test_tuples.iter().map(|v| v.0.clone()).collect();
    let expected_results: Vec<&str> = test_tuples.iter().map(|v| v.1).collect();

    //        When & Then
    for (source_ids, expected_result) in test_tuples.iter() {
        assert_eq!(
            base_tokenizer.decode(
                source_ids.clone(),
                skip_special_tokens,
                clean_up_tokenization_spaces
            ),
            *expected_result
        );
    }
    assert_eq!(
        base_tokenizer.decode_list(
            source_ids.clone(),
            skip_special_tokens,
            clean_up_tokenization_spaces
        ),
        expected_results
    );
    let parallel_results: Vec<String> = source_ids
        .par_iter()
        .map(|ids| {
            base_tokenizer.decode(
                ids.to_vec(),
                skip_special_tokens,
                clean_up_tokenization_spaces,
            )
        })
        .collect();
    assert_eq!(parallel_results, expected_results);
}

#[test]
fn test_decode_skip_special_tokens() {
    //        Given
    let vocab = Arc::new(generate_test_vocab());
    let base_tokenizer: BaseTokenizer<BaseVocab> =
        BaseTokenizer::from_existing_vocab(vocab, true, true);
    let skip_special_tokens = true;
    let clean_up_tokenization_spaces = false;
    let test_tuples = [
        (vec![0i64, 1, 3], "hello world !"),
        (vec![10, 0, 1, 3], "hello world !"),
        (vec![10, 0, 1, 2, 3], "hello world !"),
    ];
    let source_ids: Vec<Vec<i64>> = test_tuples.iter().map(|v| v.0.clone()).collect();
    let expected_results: Vec<&str> = test_tuples.iter().map(|v| v.1).collect();

    //        When & Then
    for (source_ids, expected_result) in test_tuples.iter() {
        assert_eq!(
            base_tokenizer.decode(
                source_ids.clone(),
                skip_special_tokens,
                clean_up_tokenization_spaces
            ),
            *expected_result
        );
    }
    assert_eq!(
        base_tokenizer.decode_list(
            source_ids.clone(),
            skip_special_tokens,
            clean_up_tokenization_spaces
        ),
        expected_results
    );
    let parallel_results: Vec<String> = source_ids
        .par_iter()
        .map(|ids| {
            base_tokenizer.decode(
                ids.to_vec(),
                skip_special_tokens,
                clean_up_tokenization_spaces,
            )
        })
        .collect();
    assert_eq!(parallel_results, expected_results);
}

#[test]
fn test_decode_clean_up_tokenization_spaces() {
    //        Given
    let vocab = Arc::new(generate_test_vocab());
    let base_tokenizer: BaseTokenizer<BaseVocab> =
        BaseTokenizer::from_existing_vocab(vocab, true, true);
    let skip_special_tokens = true;
    let clean_up_tokenization_spaces = true;
    let test_tuples = [
        (vec![0i64, 1, 3], "hello world!"),
        (vec![10, 0, 1, 3], "hello world!"),
        (vec![10, 0, 1, 2, 3], "hello world!"),
    ];
    let source_ids: Vec<Vec<i64>> = test_tuples.iter().map(|v| v.0.clone()).collect();
    let expected_results: Vec<&str> = test_tuples.iter().map(|v| v.1).collect();

    //        When & Then
    for (source_ids, expected_result) in test_tuples.iter() {
        assert_eq!(
            base_tokenizer.decode(
                source_ids.clone(),
                skip_special_tokens,
                clean_up_tokenization_spaces
            ),
            *expected_result
        );
    }
    assert_eq!(
        base_tokenizer.decode_list(
            source_ids.clone(),
            skip_special_tokens,
            clean_up_tokenization_spaces
        ),
        expected_results
    );
    let parallel_results: Vec<String> = source_ids
        .par_iter()
        .map(|ids| {
            base_tokenizer.decode(
                ids.to_vec(),
                skip_special_tokens,
                clean_up_tokenization_spaces,
            )
        })
        .collect();
    assert_eq!(parallel_results, expected_results);
}

#[test]
fn test_consolidated_token_iterator() {
    let tokens = vec![
        Token {
            text: "he".to_owned(),
            offset: Offset::new(0, 2),
            reference_offsets: vec![0, 1],
            mask: Mask::Begin,
        },
        Token {
            text: "llo".to_owned(),
            offset: Offset::new(2, 5),
            reference_offsets: vec![2, 3, 4],
            mask: Mask::Continuation,
        },
        Token {
            text: "world".to_owned(),
            offset: Offset::new(6, 11),
            reference_offsets: vec![6, 7, 8, 9, 10],
            mask: Mask::Plain,
        },
        Token {
            text: "!".to_owned(),
            offset: Offset::new(11, 12),
            reference_offsets: vec![11],
            mask: Mask::Punctuation,
        },
    ];

    let mut iter = tokens.iter_consolidate_tokens();
    assert_eq!(iter.next(), Some(&tokens[0..2]));
    assert_eq!(iter.next(), Some(&tokens[2..3]));
    assert_eq!(iter.next(), Some(&tokens[3..4]));
    assert_eq!(iter.next(), None);
    assert_eq!(iter.next(), None); //calling it more times after ending should always keep returning None
}
