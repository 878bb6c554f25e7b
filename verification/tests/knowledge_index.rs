use tokitai_context::knowledge_index::extract_tags_from_path;

#[test]
fn test_extract_tags_from_path() {
    let root = "/project/docs";
    let path = "/project/docs/数据库/MySQL 索引优化.md";

    let tags = extract_tags_from_path(path, root);
    assert_eq!(tags, vec!["数据库"]);
}

#[test]
fn tags_are_the_directories_between_root_and_file() {
    let tags = extract_tags_from_path("/r/a/b/c/file.md", "/r");
    assert_eq!(tags, vec!["a", "b", "c"]);
    assert!(extract_tags_from_path("/r/file.md", "/r").is_empty());
}

#[test]
fn path_outside_root_counts_every_directory() {
    assert_eq!(extract_tags_from_path("/other/a/file.md", "/r"), vec!["/", "other", "a"]);
}

use tokitai_context::knowledge_index::{extract_query_keywords, tag_overlap, wildcard_regex, KnowledgeIndex};

#[test]
fn test_extract_keywords() {
    let keywords = extract_query_keywords("MySQL optimization");
    assert!(keywords.contains(&"MySQL".to_string()));

    let keywords2 = extract_query_keywords("How to optimize MySQL?");
    assert!(keywords2.iter().any(|k| k.to_lowercase().contains("mysql")));
}

#[test]
fn keywords_drop_stop_words_and_single_letters() {
    assert_eq!(extract_query_keywords("a b 如何 redis"), vec!["redis"]);
    assert_eq!(extract_query_keywords("索引，优化"), vec!["索引", "优化"]);
}

#[test]
fn keywords_fall_back_to_the_character_scan() {
    // No piece is a keyword, so the scan splits at ASCII characters.
    assert_eq!(extract_query_keywords("a 的"), Vec::<String>::new());
    // Full-width separators do not end a word of the scan.
    assert_eq!(extract_query_keywords("如何。是"), vec!["如何。是"]);
}

fn sample_index() -> KnowledgeIndex {
    let mut index = KnowledgeIndex::new("/kb");
    index.add_file("/kb/数据库/MySQL 索引优化.md", "# MySQL 索引优化".to_string(), 10);
    index.add_file("/kb/数据库/Redis 缓存策略.md", "# Redis 缓存策略".to_string(), 20);
    index.add_file("/kb/数据库/MySQL/复制.md", "# 复制".to_string(), 30);
    index.add_file("/kb/前端/React.md", "# React".to_string(), 40);
    index
}

#[test]
fn added_files_carry_their_directory_tags_and_hash() {
    let index = sample_index();
    let node = index.get("/kb/数据库/MySQL 索引优化.md").unwrap();
    assert_eq!(node.tags, vec!["数据库"]);
    assert_eq!(node.content_hash.len(), 64);
    assert_eq!(node.content.as_deref(), Some("# MySQL 索引优化"));
    assert_eq!(node.last_accessed_ms, 10);
    assert!(node.related.is_empty());
    assert_eq!(index.get("/kb/数据库/MySQL/复制.md").unwrap().tags, vec!["数据库", "MySQL"]);
    assert!(index.get("/kb/none.md").is_none());
    assert_eq!(index.all_nodes().len(), 4);
}

#[test]
fn find_by_tag_ignores_case() {
    let index = sample_index();
    assert_eq!(index.find_by_tag("数据库").len(), 3);
    let mysql = index.find_by_tag("mysql");
    assert_eq!(mysql.len(), 1);
    assert_eq!(mysql[0].path.to_string_lossy(), "/kb/数据库/MySQL/复制.md");
    assert!(index.find_by_tag("后端").is_empty());
}

#[test]
fn find_by_directory_trims_trailing_slashes() {
    let index = sample_index();
    assert_eq!(index.find_by_directory("/kb/数据库///").len(), 3);
    assert_eq!(index.find_by_directory("前端/").len(), 1);
    assert_eq!(index.find_by_directory("/elsewhere").len(), 0);
}

#[test]
fn recommend_ranks_by_matched_keywords() {
    let index = sample_index();
    let r = index.recommend("MySQL 数据库", 10);
    assert_eq!(r.len(), 3);
    // The file under both tags matches both keywords and comes first.
    assert_eq!(r[0].path.to_string_lossy(), "/kb/数据库/MySQL/复制.md");
    assert_eq!(index.recommend("MySQL 数据库", 1).len(), 1);
    assert!(index.recommend("Kubernetes", 5).is_empty());
    assert_eq!(index.recommend("数据库", 3).len(), 3);
}

#[test]
fn related_files_skip_unindexed_and_respect_limit() {
    let mut index = sample_index();
    let related = vec![
        "/kb/数据库/Redis 缓存策略.md".to_string(),
        "/kb/gone.md".to_string(),
        "/kb/前端/React.md".to_string(),
    ];
    assert!(index.set_related("/kb/数据库/MySQL 索引优化.md", related));
    assert!(!index.set_related("/kb/gone.md", Vec::new()));
    let r = index.get_related("/kb/数据库/MySQL 索引优化.md", 5);
    assert_eq!(r.len(), 2);
    assert_eq!(r[1].path.to_string_lossy(), "/kb/前端/React.md");
    assert_eq!(index.get_related("/kb/数据库/MySQL 索引优化.md", 1).len(), 1);
    assert!(index.get_related("/kb/gone.md", 5).is_empty());
}

#[test]
fn update_keeps_relations_and_remove_drops_the_file() {
    let mut index = sample_index();
    index.set_related("/kb/前端/React.md", vec!["/kb/数据库/MySQL/复制.md".to_string()]);
    index.update_file("/kb/前端/React.md", "new".to_string(), 99);
    let node = index.get("/kb/前端/React.md").unwrap();
    assert_eq!(node.related.len(), 1);
    assert_eq!(node.last_accessed_ms, 99);
    assert_eq!(node.content.as_deref(), Some("new"));
    index.remove_file("/kb/前端/React.md");
    assert!(index.get("/kb/前端/React.md").is_none());
    let stats = index.stats();
    assert_eq!(stats.total_files, 3);
    assert_eq!(stats.total_tags, 4);
}

#[test]
fn tag_overlap_counts_shared_tags() {
    let a = vec!["x".to_string(), "y".to_string(), "z".to_string()];
    let b = vec!["y".to_string(), "z".to_string(), "w".to_string()];
    assert_eq!(tag_overlap(&a, &b), 2);
    assert_eq!(tag_overlap(&b, &Vec::new()), 0);
}

#[test]
fn wildcards_become_regular_expressions() {
    assert_eq!(wildcard_regex("a*b*"), "a.*b.*");
    assert_eq!(wildcard_regex("plain"), "plain");
}

#[test]
fn find_by_wildcard_matches_paths() {
    let index = sample_index();
    assert_eq!(index.find_by_wildcard("*MySQL*").len(), 2);
    assert_eq!(index.find_by_wildcard("前端/*.md").len(), 1);
    assert_eq!(index.find_by_wildcard("*.txt").len(), 0);
    // A pattern that is no regular expression finds nothing.
    assert!(index.find_by_wildcard("(").is_empty());
}
