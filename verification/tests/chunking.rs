use pdf_reader_core::chunk_text;

#[test]
fn splits_at_word_boundary_before_limit() {
    let chunks = chunk_text("hello world foo bar", 11);
    assert_eq!(chunks, vec!["hello world".to_string(), "foo bar".to_string()]);
}

#[test]
fn empty_text_yields_one_empty_chunk() {
    let chunks = chunk_text("", 500);
    assert_eq!(chunks, vec![String::new()]);
}

#[test]
fn whitespace_only_text_yields_one_chunk_unchanged() {
    let chunks = chunk_text("   \t \n ", 500);
    assert_eq!(chunks, vec!["   \t \n ".to_string()]);
}

#[test]
fn single_long_word_is_never_split() {
    let word = "a".repeat(40);
    let chunks = chunk_text(&word, 10);
    assert_eq!(chunks, vec![word]);
}

#[test]
fn long_word_among_short_ones_gets_its_own_chunk() {
    let text = "ab verylongwordhere cd";
    let chunks = chunk_text(text, 5);
    assert_eq!(
        chunks,
        vec!["ab".to_string(), "verylongwordhere".to_string(), "cd".to_string()]
    );
}

#[test]
fn no_chunk_exceeds_limit_except_single_long_words() {
    let text = "one two three four five six seven eight nine ten eleven twelve";
    let max = 13;
    let chunks = chunk_text(text, max);
    for c in &chunks {
        assert!(
            c.chars().count() <= max || !c.contains(' '),
            "chunk {:?} breaks the size rule",
            c
        );
    }
}

#[test]
fn chunking_is_never_empty() {
    for text in ["", " ", "x", "many words in a row here"] {
        assert!(!chunk_text(text, 3).is_empty());
    }
}

#[test]
fn rejoining_chunks_recovers_the_word_sequence() {
    let text = "  the\tquick  brown fox\njumps over the lazy dog  ";
    for max in [1, 4, 7, 10, 500] {
        let chunks = chunk_text(text, max);
        let rejoined = chunks.join(" ");
        let original_words: Vec<&str> = text.split_whitespace().collect();
        let rejoined_words: Vec<&str> = rejoined.split_whitespace().collect();
        assert_eq!(rejoined_words, original_words, "max = {}", max);
    }
}

#[test]
fn multiple_spaces_collapse_to_single_joins() {
    let chunks = chunk_text("a  b   c", 500);
    assert_eq!(chunks, vec!["a b c".to_string()]);
}
