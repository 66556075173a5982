use llm_training_rust::tokenizer::Tokenizer;

fn sample_tokenizer() -> Tokenizer {
    Tokenizer::new(vec![
        "This".to_string(),
        "is".to_string(),
        "a".to_string(),
        "sample".to_string(),
        "text.".to_string(),
    ])
}

#[test]
fn test_tokenizer_encode() {
    let tokenizer = sample_tokenizer();

    let text = "This is a sample text.";
    let encoded = tokenizer.encode(text);

    assert!(!encoded.is_empty());
}

#[test]
fn test_tokenizer_decode() {
    let tokenizer = sample_tokenizer();

    let text = "This is a sample text.";
    let encoded = tokenizer.encode(text);
    let decoded = tokenizer.decode(&encoded);

    assert_eq!(decoded, text);
}

#[test]
fn test_tokenizer_exact_ids() {
    let tokenizer = sample_tokenizer();
    assert_eq!(tokenizer.eos_id, 5);
    assert_eq!(tokenizer.pad_id, 6);
    assert_eq!(
        tokenizer.encode("a sample This This"),
        vec![2, 3, 0, 0]
    );
    // Unknown words map to the end-of-sequence id.
    assert_eq!(tokenizer.encode("unknown"), vec![5]);
    // The reserved markers encode to their reserved ids.
    assert_eq!(tokenizer.encode("<eos> <pad>"), vec![5, 6]);
}

#[test]
fn test_tokenizer_decode_markers() {
    let tokenizer = sample_tokenizer();
    assert_eq!(tokenizer.decode(&[5]), "<eos>");
    assert_eq!(tokenizer.decode(&[6]), "<pad>");
    assert_eq!(tokenizer.decode(&[7]), "<unk>");
    assert_eq!(tokenizer.decode(&[0, 7, 4]), "This <unk> text.");
    assert_eq!(tokenizer.decode(&[]), "");
}

#[test]
fn test_tokenizer_round_trip_normalizes_spacing() {
    let tokenizer = sample_tokenizer();
    // Extra white space collapses: the round trip reproduces the words,
    // joined by single spaces.
    let encoded = tokenizer.encode("  This\t is \n a  sample   text.  ");
    let decoded = tokenizer.decode(&encoded);
    assert_eq!(decoded, "This is a sample text.");
}

#[test]
fn test_tokenizer_duplicate_words_use_last_id() {
    let tokenizer = Tokenizer::new(vec![
        "again".to_string(),
        "other".to_string(),
        "again".to_string(),
    ]);
    assert_eq!(tokenizer.encode("again"), vec![2]);
    assert_eq!(tokenizer.decode(&[0]), "again");
}

#[test]
fn test_tokenizer_encode_of_decode() {
    let tokenizer = sample_tokenizer();
    let ids = vec![4, 0, 2, 2, 1];
    assert_eq!(tokenizer.encode(&tokenizer.decode(&ids)), ids);
}

#[test]
fn test_tokenizer_empty_text() {
    let tokenizer = sample_tokenizer();
    assert_eq!(tokenizer.encode(""), Vec::<usize>::new());
    assert_eq!(tokenizer.encode("   "), Vec::<usize>::new());
}
