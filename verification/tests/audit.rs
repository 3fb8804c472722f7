use harald::audit::{
    audit_directory, audit_json_file, audit_markdown_file, audit_rust_file, is_audit_excluded,
};

fn pairs(issues: Vec<harald::audit::ConventionIssue>) -> Vec<(String, String)> {
    issues.into_iter().map(|i| (i.issue_type, i.suggested_fix)).collect()
}

#[test]
fn directory_audit() {
    assert_eq!(
        pairs(audit_directory("repo/Vector_Search", "Vector_Search")),
        vec![
            (
                "Directory uses snake_case instead of kebab-case".to_string(),
                "Vector-Search".to_string()
            ),
            (
                "Directory uses PascalCase instead of kebab-case".to_string(),
                "vector_-search".to_string()
            ),
        ]
    );
    assert_eq!(
        pairs(audit_directory("repo/VectorSearch", "VectorSearch")),
        vec![(
            "Directory uses PascalCase instead of kebab-case".to_string(),
            "vector-search".to_string()
        )]
    );
    assert!(audit_directory("repo/ai-entities/Vision", "Vision").is_empty());
    assert!(audit_directory("repo/vector-search", "vector-search").is_empty());
}

#[test]
fn rust_audit() {
    assert_eq!(
        pairs(audit_rust_file("src/text-chunker.rs")),
        vec![(
            "Rust file uses kebab-case instead of snake_case".to_string(),
            "text_chunker.rs".to_string()
        )]
    );
    assert_eq!(
        pairs(audit_rust_file("src/TextChunker.rs")),
        vec![(
            "Rust file uses PascalCase/camelCase instead of snake_case".to_string(),
            "text_chunker.rs".to_string()
        )]
    );
    assert!(audit_rust_file("src/main.rs").is_empty());
    assert!(audit_rust_file("src/TextChunker.txt").is_empty());
}

#[test]
fn markdown_audit() {
    assert_eq!(
        pairs(audit_markdown_file("repo/ai-entities/Harald.md")),
        vec![(
            "Entity markdown file should use lowercase".to_string(),
            "harald.md".to_string()
        )]
    );
    assert_eq!(
        pairs(audit_markdown_file("repo/docs/naming_conventions.md")),
        vec![(
            "Markdown file uses snake_case instead of kebab-case".to_string(),
            "naming-conventions.md".to_string()
        )]
    );
    assert!(audit_markdown_file("repo/README.md").is_empty());
    assert!(audit_markdown_file("repo/docs/guide.md").is_empty());
}

#[test]
fn json_audit() {
    assert_eq!(
        pairs(audit_json_file("repo/personality-archetypes/heralds.json")),
        vec![(
            "Personality/entity JSON file should use TitleCase".to_string(),
            "Heralds.json".to_string()
        )]
    );
    assert_eq!(
        pairs(audit_json_file("repo/data/schemas/vector_store.json")),
        vec![(
            "Schema/config JSON file should use kebab-case".to_string(),
            "vector-store.json".to_string()
        )]
    );
    assert!(audit_json_file("repo/.hidden.json").is_empty());
    assert!(audit_json_file("repo/data/other_file.json").is_empty());
}

#[test]
fn audit_exclusions() {
    assert!(is_audit_excluded("repo/node_modules/pkg"));
    assert!(is_audit_excluded("repo/target"));
    assert!(!is_audit_excluded("repo/targets"));
}
