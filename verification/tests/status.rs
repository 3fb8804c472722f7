use harald::status::{
    count_registered_stores, disk_level, embedding_reply_ok, extract_version, model_listed,
    parse_disk_usage, parse_u32, DiskLevel, REQUIRED_MODEL,
};

#[test]
fn version_is_the_string_after_the_key() {
    assert_eq!(extract_version(r#"{"version":"0.1.32"}"#), Some("0.1.32".to_string()));
    assert_eq!(extract_version(r#"{"version": "0.5.1"}"#), Some("0.5.1".to_string()));
    assert_eq!(extract_version("{\"version\":\n\t\"1.0\"}"), Some("1.0".to_string()));
    assert_eq!(extract_version(r#"{"version":""}"#), None);
    assert_eq!(extract_version(r#"{"version":"0.1"#), None);
    assert_eq!(extract_version(r#"{"version":1.2"}"#), None);
    assert_eq!(extract_version("no version here"), None);
    assert_eq!(extract_version(r#"{"version":7}"#), None);
}

#[test]
fn replies_and_listings() {
    assert!(embedding_reply_ok(r#"{"embedding":[0.1]}"#));
    assert!(!embedding_reply_ok(r#"{"error":"model not found"}"#));
    assert!(model_listed("NAME ID\nharald-phi4:latest abc", REQUIRED_MODEL));
    assert!(!model_listed("NAME ID\nllama3 abc", REQUIRED_MODEL));
}

#[test]
fn registry_store_count() {
    assert_eq!(count_registered_stores(r#"[{"name":"a"},{"name":"b"}]"#), 2);
    assert_eq!(count_registered_stores("[]"), 0);
}

#[test]
fn u32_reading() {
    assert_eq!(parse_u32("42"), Some(42));
    assert_eq!(parse_u32("+7"), Some(7));
    assert_eq!(parse_u32("4294967295"), Some(u32::MAX));
    assert_eq!(parse_u32("4294967296"), None);
    assert_eq!(parse_u32(""), None);
    assert_eq!(parse_u32("+"), None);
    assert_eq!(parse_u32("-1"), None);
    assert_eq!(parse_u32("1 "), None);
}

#[test]
fn df_output_reading() {
    let out = "Filesystem Size Used Avail Use% Mounted on\n/dev/sda1 100G 85G 15G 85% /\n";
    let usage = parse_disk_usage(out).unwrap();
    assert_eq!(usage.used_percent, "85%");
    assert_eq!(usage.used_value, 85);
    assert_eq!(usage.available, "15G");
    assert_eq!(disk_level(usage.used_value), DiskLevel::High);
    assert_eq!(disk_level(91), DiskLevel::Critical);
    assert_eq!(disk_level(80), DiskLevel::Normal);
    assert!(parse_disk_usage("only one line").is_none());
    assert!(parse_disk_usage("h\na b c").is_none());
    assert_eq!(parse_disk_usage("h\na b c d x%").unwrap().used_value, 0);
}
