use rust_tokenizers::vocab::BaseVocab;
use rust_tokenizers::vocab::Vocab;

fn lines(texts: &[&str]) -> Vec<String> {
    texts.iter().map(|t| t.to_string()).collect()
}

#[test]
fn test_create_object() {
    //        Given
    let values: Vec<(String, i64)> = Vec::new();
    let special_values: Vec<(String, i64)> = Vec::new();
    let indices: Vec<(i64, String)> = Vec::new();
    let special_indices: Vec<(i64, String)> = Vec::new();
    let unknown_value = BaseVocab::unknown_value();

    //        When
    let base_vocab = BaseVocab {
        values,
        indices,
        unknown_value: unknown_value.to_string(),
        special_values,
        special_indices,
    };

    //        Then
    assert_eq!(base_vocab.unknown_value, "[UNK]");
    assert_eq!(base_vocab.unknown_value, BaseVocab::unknown_value());
    assert_eq!(base_vocab.values, *base_vocab.values());
    assert_eq!(base_vocab.special_values, *base_vocab.special_values());
}

#[test]
fn test_create_object_from_file() {
    //        Given
    let vocab_lines = lines(&["hello ", " world ", " [UNK] ", " !"]);
    let target_values: Vec<(String, i64)> = vec![
        ("hello".to_string(), 0),
        ("world".to_string(), 1),
        ("[UNK]".to_string(), 2),
        ("!".to_string(), 3),
    ];
    let special_values: Vec<(String, i64)> = vec![("[UNK]".to_string(), 2)];

    //        When
    let base_vocab = BaseVocab::from_lines(&vocab_lines).unwrap();

    //        Then
    assert_eq!(base_vocab.unknown_value, "[UNK]");
    assert_eq!(base_vocab.values, target_values);
    assert_eq!(base_vocab.special_values, special_values);
}

#[test]
#[should_panic]
fn test_create_object_from_file_without_unknown_token() {
    //        Given
    let vocab_lines = lines(&["hello ", " world ", " !"]);

    //        When & Then
    let _base_vocab = BaseVocab::from_lines(&vocab_lines).unwrap();
}

#[test]
fn test_encode_tokens() {
    //        Given
    let vocab_lines = lines(&["hello ", " world ", " [UNK] ", " !"]);
    let base_vocab = BaseVocab::from_lines(&vocab_lines).unwrap();

    //        When & Then
    assert_eq!(base_vocab.token_to_id("hello"), 0);
    assert_eq!(base_vocab.token_to_id("world"), 1);
    assert_eq!(base_vocab.token_to_id("!"), 3);
    assert_eq!(base_vocab.token_to_id("[UNK]"), 2);
    assert_eq!(base_vocab.token_to_id("oov_value"), 2);
}

#[test]
fn test_decode_tokens() {
    //        Given
    let vocab_lines = lines(&["hello ", " world ", " [UNK] ", " !"]);
    let base_vocab = BaseVocab::from_lines(&vocab_lines).unwrap();

    //        When & Then
    assert_eq!(base_vocab.id_to_token(&(0 as i64)), "hello");
    assert_eq!(base_vocab.id_to_token(&(1 as i64)), "world");
    assert_eq!(base_vocab.id_to_token(&(3 as i64)), "!");
    assert_eq!(base_vocab.id_to_token(&(2 as i64)), "[UNK]");
}

#[test]
fn test_vocab_round_trip() {
    let vocab_lines = lines(&["hello ", " world ", " [UNK] ", " !"]);
    let base_vocab = BaseVocab::from_lines(&vocab_lines).unwrap();
    for (token, id) in &base_vocab.values.clone() {
        assert_eq!(base_vocab.token_to_id(&base_vocab.id_to_token(id)), *id);
        assert_eq!(base_vocab.id_to_token(&base_vocab.token_to_id(token)), *token);
    }
}

#[test]
fn test_unknown_id_for_unknown_token() {
    let vocab_lines = lines(&["a", "b", "[UNK]"]);
    let base_vocab = BaseVocab::from_lines(&vocab_lines).unwrap();
    assert_eq!(base_vocab.token_to_id("zzz"), 2);
    assert_eq!(base_vocab.id_to_token(&99), "[UNK]");
}

#[test]
fn test_missing_unknown_token_error() {
    let vocab_lines = lines(&["a", "b"]);
    let result = BaseVocab::from_lines(&vocab_lines);
    match result {
        Err(rust_tokenizers::error::TokenizerError::TokenNotFound(_)) => {}
        _ => panic!("expected a TokenNotFound error"),
    }
}
