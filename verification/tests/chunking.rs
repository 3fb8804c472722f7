use harald::chunking::{
    character_based_chunking, chunk_text, format_chunks, semantic_chunking, size_based_chunking, try_chunk_text,
    ChunkerOptions, ChunkingStrategy,
};

#[test]
fn test_size_based_chunking() {
    let text = "This is a test string that should be split into chunks of maximum size.";
    let chunks = size_based_chunking(text, 10, false);
    assert_eq!(chunks.len(), 7);
    assert_eq!(chunks[0], "This is a ");
}

#[test]
fn test_character_based_chunking() {
    let text = "This is a test string that should be split at word boundaries.";
    let chunks = character_based_chunking(text, 15, false);
    // Should split into meaningful chunks at word boundaries
    assert!(chunks.len() >= 4);
    // No chunk should exceed the target size significantly
    for chunk in &chunks {
        assert!(chunk.len() <= 20); // Allow some flexibility
    }
}

#[test]
fn test_semantic_chunking() {
    let text = "This is sentence one. This is sentence two! Is this sentence three? Yes it is.";
    let chunks = semantic_chunking(text, false);
    assert_eq!(chunks.len(), 4);
    assert_eq!(chunks[0], "This is sentence one");
    assert_eq!(chunks[1], "This is sentence two");
    assert_eq!(chunks[2], "Is this sentence three");
    assert_eq!(chunks[3], "Yes it is.");
}

#[test]
fn chunk_text_doc_example_splits_into_several_chunks() {
    let text = "This is a long text that needs to be split into smaller chunks.";
    let options = ChunkerOptions {
        strategy: ChunkingStrategy::Character(10),
        ..Default::default()
    };
    let chunks = chunk_text(text, options);
    assert!(chunks.len() > 1);
}

#[test]
fn chunker_options_default_values() {
    let options = ChunkerOptions::default();
    assert!(matches!(options.strategy, ChunkingStrategy::Size(250)));
    assert!(!options.preserve_whitespace);
    assert!(options.delimiter.is_none());
    assert!(!options.debug);
}

#[test]
fn size_chunks_exact_pieces_and_merged_tail() {
    // 23 chars, size 10: pieces of 10, 10, 3; the tail 3 < 5 is merged.
    let chunks = size_based_chunking("abcdefghijklmnopqrstuvw", 10, false);
    assert_eq!(chunks, vec!["abcdefghij".to_string(), "klmnopqrstuvw".to_string()]);
    // 26 chars, size 10: tail of 6 is kept.
    let chunks = size_based_chunking("abcdefghijklmnopqrstuvwxyz", 10, false);
    assert_eq!(chunks, vec!["abcdefghij", "klmnopqrst", "uvwxyz"]);
}

#[test]
fn size_chunks_short_text_is_one_chunk_and_trimmed() {
    assert_eq!(size_based_chunking("  hello  ", 10, false), vec!["hello"]);
    assert_eq!(size_based_chunking("  hello  ", 10, true), vec!["  hello  "]);
    assert_eq!(size_based_chunking("   ", 0, false), vec![""]);
}

#[test]
fn size_chunks_concatenate_back_to_text() {
    let text = "The quick brown fox jumps over the lazy dog, again and again.";
    let chunks = size_based_chunking(text, 7, true);
    assert_eq!(chunks.concat(), text);
}

#[test]
fn size_chunks_count_characters_not_bytes() {
    let chunks = size_based_chunking("ééééééééé", 4, false);
    assert_eq!(chunks, vec!["éééé", "ééééé"]);
}

#[test]
fn character_chunks_pack_words() {
    let chunks = character_based_chunking("aa bb cc dd ee", 5, false);
    assert_eq!(chunks, vec!["aa bb", "cc dd", "ee"]);
}

#[test]
fn character_chunks_cut_long_words() {
    let chunks = character_based_chunking("hi abcdefghijkl yo", 5, false);
    assert_eq!(chunks, vec!["hi", "abcde", "fghij", "kl", "yo"]);
    let chunks = character_based_chunking("abcdefghijk", 5, false);
    assert_eq!(chunks, vec!["abcde", "fghijk"]);
}

#[test]
fn character_chunks_whitespace_only_with_zero_target() {
    assert_eq!(character_based_chunking("   ", 0, true), Vec::<String>::new());
}

#[test]
fn semantic_splits_paragraphs_first() {
    let chunks = semantic_chunking("First part.\n\nSecond part. More.", false);
    assert_eq!(chunks, vec!["First part.", "Second part. More."]);
}

#[test]
fn semantic_strips_repeated_terminators_inside_text() {
    let chunks = semantic_chunking("Wait!! What?! Fine.", false);
    assert_eq!(chunks, vec!["Wait", "What", "Fine."]);
}

#[test]
fn semantic_falls_back_to_character_chunks() {
    let chunks = semantic_chunking("  no sentence end here  ", false);
    assert_eq!(chunks, vec!["no sentence end here"]);
}

#[test]
fn try_chunk_text_refuses_zero_size_on_content() {
    let options = ChunkerOptions {
        strategy: ChunkingStrategy::Size(0),
        ..Default::default()
    };
    assert!(try_chunk_text("abc", options).is_none());
    let options = ChunkerOptions {
        strategy: ChunkingStrategy::Character(0),
        ..Default::default()
    };
    assert!(try_chunk_text("abc", options).is_none());
    let options = ChunkerOptions {
        strategy: ChunkingStrategy::Size(0),
        ..Default::default()
    };
    assert_eq!(try_chunk_text("  ", options), Some(vec![String::new()]));
    let options = ChunkerOptions {
        strategy: ChunkingStrategy::Size(3),
        ..Default::default()
    };
    assert_eq!(try_chunk_text("abcdef", options), Some(vec!["abc".to_string(), "def".to_string()]));
}

#[test]
fn semantic_without_breaks_falls_back_to_character_chunks() {
    for text in ["", "No stop here", "  a.b c?d  ", "one\ntwo\n", "end. "] {
        assert_eq!(semantic_chunking(text, false), character_based_chunking(text, 250, false));
    }
    let long = "word ".repeat(80);
    let chunks = semantic_chunking(&long, false);
    assert_eq!(chunks, character_based_chunking(&long, 250, false));
    assert!(chunks.len() > 1);
    assert!(chunks.iter().all(|c| c.len() <= 250));
    assert_eq!(semantic_chunking("", false), vec![""]);
    assert_eq!(semantic_chunking("No stop here", false), vec!["No stop here"]);
}

#[test]
fn unicode_whitespace_is_trimmed() {
    assert_eq!(size_based_chunking("\u{3000}\u{a0}abc\u{2009}\n", 10, false), vec!["abc"]);
    assert_eq!(size_based_chunking("\u{200b}abc", 10, false), vec!["\u{200b}abc"]);
}

#[test]
fn command_output_lines() {
    let chunks = vec!["a".to_string(), "b\"c\n".to_string()];
    assert_eq!(format_chunks(&chunks, true, false), Some(vec![r#"["a","b\"c\n"]"#.to_string()]));
    assert_eq!(format_chunks(&chunks, true, true), Some(vec![r#"["a","b\"c\n"]"#.to_string()]));
    assert_eq!(
        format_chunks(&chunks, false, true),
        Some(vec!["1: a".to_string(), "2: b\"c\n".to_string()])
    );
    assert_eq!(format_chunks(&chunks, false, false), Some(chunks.clone()));
    let many: Vec<String> = (0..12).map(|i| format!("c{i}")).collect();
    let lines = format_chunks(&many, false, true).unwrap();
    assert_eq!(lines[9], "10: c9");
    assert_eq!(lines[11], "12: c11");
    assert_eq!(format_chunks(&Vec::new(), true, false), Some(vec!["[]".to_string()]));
    assert_eq!(format_chunks(&Vec::new(), false, true), Some(Vec::new()));
}
