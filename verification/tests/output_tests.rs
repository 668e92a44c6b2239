use trending_bot::item::TrendingItem;
use trending_bot::output::{AiOutput, SourceDiff};

fn make_item(source: &str, id: &str) -> TrendingItem {
    TrendingItem {
        source: source.to_string(),
        id: id.to_string(),
        title: "test".into(),
        url: "https://example.com".into(),
        score: None,
        external_content: None,
        summary: None,
    }
}

#[test]
fn test_ai_output_cache_status_all_new() {
    let items = vec![make_item("github_trending", "a/b")];
    let new = vec![&items[0]];
    let old: Vec<&TrendingItem> = vec![];
    let by_source = vec![("github_trending".to_string(), SourceDiff { new: 1, old: 0 })];

    let output = AiOutput::new(&items, &new, &old, 1, 0, 0, &by_source);
    assert_eq!(output.cache.status, "all_new");
    assert_eq!(output.cache.new_count, 1);
    assert_eq!(output.cache.fetched_content, 1);
}

#[test]
fn test_ai_output_cache_status_partial() {
    let items = vec![make_item("github_trending", "a/b"), make_item("hacker_news", "story_1")];
    let new = vec![&items[1]];
    let old = vec![&items[0]];
    let by_source = vec![
        ("github_trending".to_string(), SourceDiff { new: 0, old: 1 }),
        ("hacker_news".to_string(), SourceDiff { new: 1, old: 0 }),
    ];

    let output = AiOutput::new(&items, &new, &old, 1, 0, 0, &by_source);
    assert_eq!(output.cache.status, "partial_update");
    assert_eq!(output.cache.new_count, 1);
    assert_eq!(output.cache.old_count, 1);
    assert_eq!(output.cache.source_diff("hacker_news").unwrap().new, 1);
}

#[test]
fn test_ai_output_cache_status_no_change() {
    let items = vec![make_item("github_trending", "a/b")];
    let new: Vec<&TrendingItem> = vec![];
    let old = vec![&items[0]];
    let by_source = vec![("github_trending".to_string(), SourceDiff { new: 0, old: 1 })];

    let output = AiOutput::new(&items, &new, &old, 0, 0, 0, &by_source);
    assert_eq!(output.cache.status, "no_change");
    assert!(output.cache.is_duplicate);
}

#[test]
fn test_ai_output_contains_items() {
    let items = vec![make_item("github_trending", "a/b"), make_item("lobsters", "story_abc")];
    let new = vec![&items[0], &items[1]];
    let old = vec![];
    let by_source = vec![];

    let output = AiOutput::new(&items, &new, &old, 0, 0, 0, &by_source);
    assert_eq!(output.count, 2);
    assert_eq!(output.items.len(), 2);
    assert_eq!(output.items[0].source, "github_trending");
    assert_eq!(output.items[1].source, "lobsters");
}

#[test]
fn report_fields_at_a_given_time() {
    let items = vec![make_item("a", "1"), make_item("a", "2")];
    let new = vec![&items[1]];
    let old = vec![&items[0]];
    let by_source = vec![("a".to_string(), SourceDiff { new: 1, old: 1 })];
    let output = AiOutput::new_at(&items, &new, &old, 2, 3, 4, &by_source, "2026-07-06T08:00:00+08:00".into());
    assert_eq!(output.tool, "trending-bot");
    assert_eq!(output.version, "0.1.0");
    assert_eq!(output.fetched_at, "2026-07-06T08:00:00+08:00");
    assert_eq!(output.cache.new_items, vec!["2".to_string()]);
    assert!(!output.cache.is_duplicate);
    assert_eq!((output.cache.fetched_content, output.cache.cached_content, output.cache.failed_content), (2, 3, 4));
    assert_eq!(output.cache.source_diff("a"), Some(SourceDiff { new: 1, old: 1 }));
    assert_eq!(output.cache.source_diff("b"), None);
}

#[test]
fn empty_run_is_no_change() {
    let items: Vec<TrendingItem> = vec![];
    let output = AiOutput::new(&items, &[], &[], 0, 0, 0, &vec![]);
    assert_eq!(output.cache.status, "no_change");
    assert!(output.cache.is_duplicate);
}

#[test]
fn report_is_timed_now() {
    let items: Vec<TrendingItem> = vec![];
    let output = AiOutput::new(&items, &[], &[], 0, 0, 0, &vec![]);
    assert!(output.fetched_at.len() >= 20);
    assert_eq!(&output.fetched_at[10..11], "T");
}

#[test]
fn report_is_timed_in_rfc3339() {
    let items = vec![make_item("github_trending", "a/b")];
    let output = AiOutput::new(&items, &vec![], &vec![&items[0]], 0, 0, 0, &vec![]);
    let t: Vec<char> = output.fetched_at.chars().collect();
    let n = t.len();
    assert!(n >= 25);
    assert_eq!(t[10], 'T');
    assert_eq!(t[4], '-');
    assert_eq!(t[7], '-');
    assert!(t[n - 6] == '+' || t[n - 6] == '-');
    assert_eq!(t[n - 3], ':');
}
