use harald::ingest::chunking_utils::{chunk_entity_fields, chunk_field, EntityFields};
use harald::ingest::ingest_utils::{jsonl_records, tally_verdicts, validate_jsonl_lines};
use harald::ingest::runner::{
    initial_stats, is_progress_point, is_supported_file, select_candidates, should_skip_path,
    truncate_content, IngestConfig, MAX_EMBEDDING_TOKENS, MAX_FILE_CHARS,
};
use harald::ingest::single_character_ingest::{
    process_character, validate_character_entry, CharacterEntry, NameField,
    SingleCharacterConfig,
};

#[test]
fn test_should_skip_path() {
    assert!(should_skip_path(".git"));
    assert!(should_skip_path("project/.git"));
    assert!(should_skip_path("target"));
    assert!(!should_skip_path("src"));
    assert!(!should_skip_path("README.md"));
}

#[test]
fn test_is_supported_file() {
    assert!(is_supported_file("README.md"));
    assert!(is_supported_file("config.json"));
    assert!(!is_supported_file("binary.exe"));
    assert!(!is_supported_file("script.py"));
}

#[test]
fn test_truncate_content() {
    let long_content = "a".repeat(1000);
    assert_eq!(truncate_content(&long_content, 500).len(), 500);

    let short_content = "short";
    assert_eq!(truncate_content(short_content, 500), "short");
}

#[test]
fn test_ingest_config_default() {
    let config = IngestConfig::default();
    assert_eq!(config.max_chars, MAX_FILE_CHARS);
    assert_eq!(config.max_tokens, MAX_EMBEDDING_TOKENS);
}

#[test]
fn ingest_config_for_a_root() {
    let config = IngestConfig::for_root("/srv/repo".to_string());
    assert_eq!(config.root_dir, "/srv/repo");
    assert_eq!(config.max_chars, MAX_FILE_CHARS);
    assert_eq!(config.max_tokens, MAX_EMBEDDING_TOKENS);
    assert!(config.max_concurrent_files.is_none());
}

#[test]
fn test_single_character_config_default() {
    let config = SingleCharacterConfig::default();
    assert_eq!(config.max_embed_len, 250);
    assert_eq!(config.max_retries, 3);
    assert_eq!(config.retry_delay, 5);
    assert_eq!(config.model, "harald-phi4");
}

#[test]
fn test_validate_character_entry_valid() {
    // {"character_name": "Vision", "description": "A test character"}
    let character = CharacterEntry::Object {
        character_name: NameField::Text("Vision".to_string()),
    };

    let result = validate_character_entry(&character);
    assert!(result.is_ok());
}

#[test]
fn test_validate_character_entry_missing_name() {
    // {"description": "A test character"}
    let character = CharacterEntry::Object { character_name: NameField::Missing };

    let result = validate_character_entry(&character);
    assert!(result.is_err());
    assert!(result.unwrap_err().contains("character_name"));
}

#[test]
fn test_validate_character_entry_empty_name() {
    // {"character_name": "", "description": "A test character"}
    let character = CharacterEntry::Object {
        character_name: NameField::Text(String::new()),
    };

    let result = validate_character_entry(&character);
    assert!(result.is_err());
    assert!(result.unwrap_err().contains("empty"));
}

#[test]
fn test_validate_character_entry_invalid_structure() {
    // "not an object"
    let character = CharacterEntry::NotObject;

    let result = validate_character_entry(&character);
    assert!(result.is_err());
    assert!(result.unwrap_err().contains("JSON object"));
}

#[test]
fn test_process_character_placeholder() {
    // {"character_name": "Vision"}
    let character = CharacterEntry::Object {
        character_name: NameField::Text("Vision".to_string()),
    };
    let output_dir = "/tmp";
    let config = SingleCharacterConfig::default();

    let result = process_character(&character, output_dir, &config);
    assert!(result.is_err());
    assert!(result.unwrap_err().to_string().contains("not yet implemented"));
}

#[test]
fn character_name_of_whitespace_or_other_type() {
    let blank = CharacterEntry::Object { character_name: NameField::Text("  \t".to_string()) };
    assert_eq!(validate_character_entry(&blank).unwrap_err(), "Character name cannot be empty");
    let number = CharacterEntry::Object { character_name: NameField::NotText };
    assert_eq!(validate_character_entry(&number).unwrap_err(), "Character name must be a string");
}

#[test]
fn skip_paths_by_whole_components() {
    assert!(should_skip_path("repo/docs/api"));
    assert!(should_skip_path("repo/src/Cargo.lock"));
    assert!(!should_skip_path("repo/my.git"));
    assert!(should_skip_path("./node_modules/"));
}

#[test]
fn skip_everything_inside_a_skipped_directory() {
    assert!(should_skip_path("repo/target/file.md"));
    assert!(should_skip_path("repo/.git/config.json"));
    assert!(should_skip_path("node_modules/pkg/README.md"));
    assert!(should_skip_path("repo/docs/api/index.md"));
    assert!(!should_skip_path("repo/docs/guide.md"));
    assert!(!should_skip_path("repo/targets/file.md"));
}

#[test]
fn supported_extensions_only_after_a_real_dot() {
    assert!(is_supported_file("data/x.jsonl"));
    assert!(!is_supported_file(".md"));
    assert!(!is_supported_file("notes.MD"));
    assert!(!is_supported_file("dir.md/.."));
}

#[test]
fn truncate_counts_bytes() {
    assert_eq!(truncate_content("héllo", 3), "hé");
    assert_eq!(truncate_content("héllo", 6), "héllo");
}

#[test]
fn candidates_and_skipped_count() {
    let entries = vec![
        "root".to_string(),
        "root/README.md".to_string(),
        "root/.git".to_string(),
        "root/src/lib.rs".to_string(),
        "root/data/items.jsonl".to_string(),
        "root/.git/info.json".to_string(),
        "root/target/doc/notes.md".to_string(),
    ];
    let (chosen, skipped) = select_candidates("root", &entries);
    assert_eq!(chosen, vec!["root/README.md".to_string(), "root/data/items.jsonl".to_string()]);
    assert_eq!(skipped, 5);
}

#[test]
fn directories_above_the_root_are_not_looked_at() {
    let entries = vec![
        "work/build/site".to_string(),
        "work/build/site/index.md".to_string(),
        "work/build/site/dist/out.json".to_string(),
    ];
    let (chosen, skipped) = select_candidates("work/build/site", &entries);
    assert_eq!(chosen, vec!["work/build/site/index.md".to_string()]);
    assert_eq!(skipped, 2);
    let (chosen, skipped) = select_candidates("work/build", &entries);
    assert!(chosen.is_empty());
    assert_eq!(skipped, 3);
}

#[test]
fn output_directory_and_progress() {
    assert_eq!(initial_stats("repo").output_dir, "repo/data");
    assert_eq!(initial_stats("repo/").output_dir, "repo/data");
    assert_eq!(initial_stats("").output_dir, "data");
    assert!(is_progress_point(20));
    assert!(!is_progress_point(21));
}

#[test]
fn chunk_field_splits_at_safe_length() {
    let text = "x".repeat(600);
    let chunks = chunk_field(&text, 1000);
    assert_eq!(chunks.iter().map(|c| c.chars().count()).collect::<Vec<_>>(), vec![250, 250, 100]);
    let chunks = chunk_field("abcdefg", 3);
    assert_eq!(chunks, vec!["abc", "def", "g"]);
    assert_eq!(chunk_field("short", 10), vec!["short"]);
    assert_eq!(chunk_field("", 0), vec![""]);
}

#[test]
fn entity_fields_are_chunked_in_order() {
    let fields = EntityFields {
        character_name: Some("Vision".to_string()),
        description: Some("An android".to_string()),
        affiliations: Some(vec!["Avengers".to_string(), "Illuminati".to_string()]),
        core_attributes: None,
        inspirational_themes: Some(Vec::new()),
        traits: Some(vec!["calm".to_string()]),
    };
    let pairs = chunk_entity_fields(&fields, 6);
    let expected: Vec<(String, String)> = vec![
        ("character_name", "Vision"),
        ("description", "An and"),
        ("description", "roid"),
        ("affiliations", "Avenge"),
        ("affiliations", "rs, Il"),
        ("affiliations", "lumina"),
        ("affiliations", "ti"),
        ("inspirational_themes", ""),
        ("traits", "calm"),
    ]
    .into_iter()
    .map(|(a, b)| (a.to_string(), b.to_string()))
    .collect();
    assert_eq!(pairs, expected);
}

#[test]
fn jsonl_counts_valid_and_invalid_lines() {
    let content = "{\"a\": 1}\n\n   \nnot json\r\n[1, 2]\n{\"open\": ";
    assert_eq!(validate_jsonl_lines(content), (2, 2));
    assert_eq!(validate_jsonl_lines(""), (0, 0));
    assert_eq!(
        jsonl_records("a\r\n \nb\n"),
        vec!["a".to_string(), "b".to_string()]
    );
    assert_eq!(tally_verdicts(&vec![true, false, false]), (1, 2));
}
