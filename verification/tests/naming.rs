use harald::naming::{
    check_directory, check_json_file, check_markdown_file, check_rust_file, is_config_file,
    is_entity_file, is_entity_or_archetype_file, is_excluded_entry, is_special_directory,
    is_standard_doc, is_valid_kebab_case, is_valid_snake_case, is_valid_title_case,
    join_lowered_words, to_kebab_case, to_snake_case, to_title_case, to_uppercase,
    validation_result, gather_issues, IssueType, NamingIssue, ValidationConfig,
};

#[test]
fn test_case_validation() {
    assert!(is_valid_kebab_case("hello-world"));
    assert!(!is_valid_kebab_case("HelloWorld"));

    assert!(is_valid_snake_case("hello_world"));
    assert!(!is_valid_snake_case("hello-world"));

    assert!(is_valid_title_case("HelloWorld"));
    assert!(!is_valid_title_case("hello-world"));
}

#[test]
fn test_case_conversion() {
    assert_eq!(to_kebab_case("HelloWorld"), "hello-world");
    assert_eq!(to_snake_case("HelloWorld"), "hello_world");
    assert_eq!(to_title_case("hello-world"), "HelloWorld");
}

#[test]
fn empty_names_are_not_valid() {
    assert!(!is_valid_kebab_case(""));
    assert!(!is_valid_snake_case(""));
    assert!(!is_valid_title_case(""));
}

#[test]
fn conversions_collapse_separators() {
    assert_eq!(to_kebab_case("__my  Cool__dir--"), "my-cool-dir");
    assert_eq!(to_snake_case("my-cool.file"), "my_cool_file");
    assert_eq!(to_kebab_case("version2Final"), "version2final");
    assert_eq!(to_kebab_case("myHTTPServer"), "my-httpserver");
    assert_eq!(to_kebab_case("---"), "");
}

#[test]
fn title_case_starts_words_only_after_separators() {
    assert_eq!(to_title_case("HelloWorld"), "Helloworld");
    assert_eq!(to_title_case("helloWorld"), "Helloworld");
    assert_eq!(to_title_case("vision_registry"), "VisionRegistry");
    assert_eq!(to_title_case("agent 007 bond"), "Agent007Bond");
    assert_eq!(to_title_case("SHOUT"), "Shout");
}

#[test]
fn converted_names_are_valid() {
    for name in ["HelloWorld", "my dir", "Some_Name-2", "x"] {
        assert!(is_valid_kebab_case(&to_kebab_case(name)));
        assert!(is_valid_snake_case(&to_snake_case(name)));
    }
}

#[test]
fn special_names() {
    assert!(is_special_directory("src"));
    assert!(is_special_directory("logs"));
    assert!(!is_special_directory("Src"));
    assert!(is_standard_doc("README"));
    assert!(!is_standard_doc("readme"));
}

#[test]
fn path_context() {
    assert!(is_entity_file("docs/ai-entities/Vision.md"));
    assert!(is_entity_file("/abs/ai-entities"));
    assert!(!is_entity_file("docs/ai-entities-old/x.md"));
    assert!(is_entity_or_archetype_file("data/personality-archetypes/Heralds.json"));
    assert!(is_config_file("./config//vector.json"));
    assert!(!is_config_file("configs/vector.json"));
}

#[test]
fn excluded_walk_entries() {
    assert!(is_excluded_entry("node_modules"));
    assert!(is_excluded_entry("my-build-dir"));
    assert!(is_excluded_entry(".github"));
    assert!(!is_excluded_entry("src"));
}

#[test]
fn directory_check_reports_and_suggests() {
    let issue = check_directory("root/My_Dir", "My_Dir").unwrap();
    assert_eq!(issue.issue_type, IssueType::DirectoryNaming);
    assert_eq!(issue.current_name, "My_Dir");
    assert_eq!(issue.suggested_name, "my-dir");
    assert_eq!(issue.description, "Directory 'My_Dir' should use kebab-case");
    assert_eq!(issue.path, "root/My_Dir");
    assert!(check_directory("root/vector-search", "vector-search").is_none());
    assert!(check_directory("root/src", "src").is_none());
}

#[test]
fn rust_file_check() {
    let issue = check_rust_file("src/MyModule.rs").unwrap();
    assert_eq!(issue.issue_type, IssueType::RustFileNaming);
    assert_eq!(issue.current_name, "MyModule");
    assert_eq!(issue.suggested_name, "my_module");
    assert_eq!(issue.description, "Rust file 'MyModule' should use snake_case");
    assert!(check_rust_file("src/main.rs").is_none());
    assert!(check_rust_file("src/mod.rs").is_none());
    assert!(check_rust_file("src/embed.rs").is_none());
    assert!(check_rust_file("src/MyModule.txt").is_none());
}

#[test]
fn markdown_file_check() {
    let issue = check_markdown_file("docs/Naming_Conventions.md").unwrap();
    assert_eq!(issue.issue_type, IssueType::MarkdownFileNaming);
    assert_eq!(issue.suggested_name, "naming-conventions");
    assert_eq!(issue.description, "Markdown file 'Naming_Conventions' should use kebab-case");
    let issue = check_markdown_file("ai-entities/vision.md").unwrap();
    assert_eq!(issue.suggested_name, "Vision");
    assert_eq!(issue.description, "Markdown file 'vision' should use TitleCase");
    assert!(check_markdown_file("README.md").is_none());
    let issue = check_markdown_file("Readme.md");
    assert!(issue.is_some());
    assert!(check_markdown_file("docs/chunking-guide.md").is_none());
}

#[test]
fn json_file_check() {
    let issue = check_json_file("config/vector_stores.json").unwrap();
    assert_eq!(issue.issue_type, IssueType::JsonFileNaming);
    assert_eq!(issue.suggested_name, "vector-stores");
    assert_eq!(issue.description, "JSON file 'vector_stores' should use kebab-case");
    let issue = check_json_file("personality-archetypes/heralds.json").unwrap();
    assert_eq!(issue.suggested_name, "Heralds");
    let issue = check_json_file("data/Meta.json").unwrap();
    assert_eq!(issue.suggested_name, "meta");
    assert!(check_json_file("data/meta.json").is_none());
    assert!(check_json_file("data/meta.jsonl").is_none());
}

#[test]
fn validation_result_counts_fix_outcomes() {
    let issue = NamingIssue {
        path: "a".to_string(),
        issue_type: IssueType::DirectoryNaming,
        current_name: "A".to_string(),
        suggested_name: "a".to_string(),
        description: "d".to_string(),
    };
    let three = vec![issue.clone(), issue.clone(), issue.clone()];
    let result = validation_result(three.clone(), true, &vec![true, false, true]);
    assert_eq!(result.issues.len(), 3);
    assert_eq!(result.fixed_count, 2);
    assert_eq!(result.error_count, 1);
    let result = validation_result(three, false, &Vec::new());
    assert_eq!(result.issues.len(), 3);
    assert_eq!(result.fixed_count, 0);
    assert_eq!(result.error_count, 0);
    let result = validation_result(Vec::new(), true, &Vec::new());
    assert_eq!(result.fixed_count, 0);
    assert_eq!(result.error_count, 0);
}

#[test]
fn issues_are_gathered_in_check_order() {
    let make = |p: &str| NamingIssue {
        path: p.to_string(),
        issue_type: IssueType::DirectoryNaming,
        current_name: p.to_string(),
        suggested_name: p.to_string(),
        description: String::new(),
    };
    let all = gather_issues(vec![make("d")], vec![make("r1"), make("r2")], Vec::new(), vec![make("j")]);
    let paths: Vec<&str> = all.iter().map(|i| i.path.as_str()).collect();
    assert_eq!(paths, vec!["d", "r1", "r2", "j"]);
}

#[test]
fn validation_config_default() {
    let config = ValidationConfig::default();
    assert_eq!(config.target_path, ".");
    assert!(!config.fix_issues);
    assert!(!config.verbose);
    let config = ValidationConfig::for_path("/home/user/project".to_string());
    assert_eq!(config.target_path, "/home/user/project");
    assert!(!config.fix_issues);
    assert!(!config.verbose);
}

#[test]
fn lowered_words_are_joined() {
    assert_eq!(join_lowered_words("--my  cool__dir--", '-'), "my-cool-dir");
    assert_eq!(join_lowered_words("a.b", '_'), "a_b");
    assert_eq!(join_lowered_words("", '-'), "");
}

#[test]
fn uppercase_conversion() {
    assert_eq!(to_uppercase("readme-file"), "README-FILE");
}

#[test]
fn converting_twice_changes_nothing() {
    for name in ["HelloWorld", "__my--Odd  name__", "v2Config", "already-kebab", "", "---", "XMLParser"] {
        let k = to_kebab_case(name);
        assert_eq!(to_kebab_case(&k), k);
        assert!(k.is_empty() || is_valid_kebab_case(&k));
        let s = to_snake_case(name);
        assert_eq!(to_snake_case(&s), s);
        assert!(s.is_empty() || is_valid_snake_case(&s));
    }
    assert_eq!(to_kebab_case("__my--Odd  name__"), "my-odd-name");
}

#[test]
fn standard_documents_are_never_listed() {
    for doc in ["README", "CONTRIBUTING", "LICENSE", "CHANGELOG"] {
        assert!(check_markdown_file(&format!("project/docs/{doc}.md")).is_none());
        assert!(check_markdown_file(&format!("{doc}.md")).is_none());
    }
    assert!(check_markdown_file("project/ai-entities/README.md").is_none());
    assert!(check_markdown_file("project/Readme.md").is_some());
}
