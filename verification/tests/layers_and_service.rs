use std::path::PathBuf;
use tokitai_context::context_root::ContextRoot;
use tokitai_context::file_service::{compute_hash, generate_summary, FileContextConfig};
use tokitai_context::layers::{
    json_stem, keyword_matches, storage_category, transient_id,
    extract_keywords, merge_categories, order_by_time, trim_victims, LongTermConfig, LongTermLayer, ShortTermLayer,
};

#[test]
fn keywords_split_on_separators_and_skip_stop_words() {
    assert_eq!(extract_keywords("How to optimize MySQL?"), vec!["How", "to", "optimize", "MySQL"]);
    assert_eq!(extract_keywords("a 的 bc，de"), vec!["bc", "de"]);
}

#[test]
fn categories_merge_found_then_custom_once() {
    let found = vec!["x".to_string(), "git_rules".to_string()];
    let custom = LongTermConfig::default().custom_categories;
    assert_eq!(merge_categories(&found, &custom), vec!["x", "git_rules", "tool_configs", "task_patterns"]);
}

#[test]
fn category_is_chosen_by_tag_then_keyword() {
    let layer = LongTermLayer::with_found_categories(PathBuf::from("/lt"), LongTermConfig::default(), &Vec::new());
    assert_eq!(layer.select_category("anything", &["GIT_RULES".to_string()]), "git_rules");
    assert_eq!(layer.select_category("see tool_configs here", &[]), "tool_configs");
    assert_eq!(layer.select_category("nothing matches", &["none".to_string()]), "task_patterns");
    assert_eq!(layer.category_dir("git_rules"), PathBuf::from("/lt/git_rules"));
}

#[test]
fn short_term_rounds_can_change() {
    let mut layer = ShortTermLayer::with_dir(PathBuf::from("/st"), 3);
    assert_eq!(layer.max_rounds(), 3);
    layer.set_max_rounds(5);
    assert_eq!(layer.max_rounds(), 5);
}

#[test]
fn context_root_layout() {
    let root = ContextRoot::layout(PathBuf::from("/ctx"));
    assert_eq!(root.root(), &PathBuf::from("/ctx"));
    assert_eq!(root.hashes_dir(), &PathBuf::from("/ctx/hashes"));
    assert_eq!(root.logs_dir(), &PathBuf::from("/ctx/logs"));
    assert_eq!(root.session_dir("s1"), PathBuf::from("/ctx/sessions/s1"));
    let dirs = root.session_layout("s1");
    assert_eq!(dirs.transient_dir, PathBuf::from("/ctx/sessions/s1/transient"));
    assert_eq!(dirs.short_term_dir, PathBuf::from("/ctx/sessions/s1/short-term"));
    assert_eq!(dirs.long_term_dir, PathBuf::from("/ctx/sessions/s1/long-term"));
}

#[test]
fn service_config_defaults() {
    let c = FileContextConfig::default();
    assert_eq!(c.max_short_term_rounds, 10);
    assert!(c.enable_mmap && c.enable_semantic_index);
    assert_eq!(c.cloud_chain_nodes, 5);
    assert_eq!(c.max_search_results, 10);
}

#[test]
fn summaries_cut_long_text() {
    assert_eq!(generate_summary(b"short"), "short");
    let long = "字".repeat(250);
    let s = generate_summary(long.as_bytes());
    assert_eq!(s.chars().count(), 203);
    assert!(s.ends_with("..."));
    assert_eq!(generate_summary(&[0x61, 0xFF]), "a\u{FFFD}");
}

#[test]
fn service_hash_is_plain_sha256() {
    assert_eq!(compute_hash(b"abc"), "ba7816bf8f01cfea414140de5dae2223b00361a396177a9cb410ff61f20015ad");
}

#[test]
fn test_short_term_layer() {
    // Five items created one second apart; a layer of three rounds drops
    // the two oldest, newest first.
    let items: Vec<(String, (i64, u32))> = (0..5).map(|i| (format!("test{}", i), (100 + i as i64, 0))).collect();
    let deleted = trim_victims(items, 3);
    assert_eq!(deleted, vec!["test1", "test0"]);
}

#[test]
fn ordering_by_time_is_stable() {
    let items = vec![
        ("b".to_string(), (5, 0)),
        ("a".to_string(), (3, 7)),
        ("c".to_string(), (5, 0)),
        ("d".to_string(), (3, 9)),
    ];
    let newest: Vec<String> = order_by_time(items.clone(), true).into_iter().map(|e| e.0).collect();
    assert_eq!(newest, vec!["b", "c", "d", "a"]);
    let oldest: Vec<String> = order_by_time(items.clone(), false).into_iter().map(|e| e.0).collect();
    assert_eq!(oldest, vec!["a", "d", "b", "c"]);
    assert!(trim_victims(items, 10).is_empty());
}

#[test]
fn transient_file_names_give_their_ids() {
    assert_eq!(transient_id("abc_content.bin").as_deref(), Some("abc"));
    assert_eq!(transient_id("_content.bin").as_deref(), Some(""));
    assert_eq!(transient_id("abc_content.txt"), None);
    assert_eq!(transient_id("bin"), None);
}

#[test]
fn metadata_file_names_give_their_stems() {
    assert_eq!(json_stem("abc123.json").as_deref(), Some("abc123"));
    assert_eq!(json_stem("a.b.json").as_deref(), Some("a.b"));
    assert_eq!(json_stem(".json"), None);
    assert_eq!(json_stem("abc_summary.txt"), None);
}

#[test]
fn keyword_search_ignores_case() {
    assert!(keyword_matches("Git_Rules.bin", "git"));
    assert!(keyword_matches("abc.json", ""));
    assert!(!keyword_matches("abc.json", "xyz"));
}

#[test]
fn long_term_items_are_filed_under_their_first_tag() {
    assert_eq!(storage_category(&["git_rules".to_string(), "x".to_string()]), "git_rules");
    assert_eq!(storage_category(&[]), "task_patterns");
}

#[test]
fn layer_file_names() {
    assert_eq!(tokitai_context::layers::content_file_name("abc"), "abc_content.bin");
    assert_eq!(tokitai_context::layers::summary_file_name("abc"), "abc_summary.txt");
    assert_eq!(tokitai_context::layers::metadata_file_name("abc"), "abc.json");
    assert_eq!(tokitai_context::layers::knowledge_file_name("abc"), "abc.bin");
    assert!(tokitai_context::layers::names_item("h", "i", "h"));
    assert!(tokitai_context::layers::names_item("h", "i", "i"));
    assert!(!tokitai_context::layers::names_item("h", "i", "x"));
}
