use std::hash::{Hash, Hasher};
use std::path::PathBuf;

use trending_bot::cache::{hex16, home_dir, CacheData, LastSeen, OldCacheData, RepoCache};
use trending_bot::item::{ContentType, ExternalContent, TrendingItem};
use trending_bot::repo::Repo;

fn make_cache() -> RepoCache {
    RepoCache::new_with_dir("target/test-cache".to_string())
}

fn make_item(source: &str, id: &str, url: &str) -> TrendingItem {
    TrendingItem {
        source: source.to_string(),
        id: id.to_string(),
        title: "test".into(),
        url: url.to_string(),
        score: None,
        external_content: None,
        summary: None,
    }
}

fn make_repo(name: &str) -> Repo {
    Repo {
        name: name.to_string(),
        url: format!("https://github.com/{}", name),
        description: None,
        language: None,
        stars_total: 0,
        stars_today: 0,
    }
}

fn repo_items(repos: &[Repo]) -> Vec<TrendingItem> {
    repos
        .iter()
        .map(|r| TrendingItem {
            source: "github_trending".into(),
            id: r.name.clone(),
            title: r.name.clone(),
            url: r.url.clone(),
            score: None,
            external_content: None,
            summary: None,
        })
        .collect()
}

fn seen(entries: &[(&str, &[&str])]) -> LastSeen {
    let mut last = LastSeen::new();
    for (source, ids) in entries {
        last.insert(source.to_string(), ids.iter().map(|s| s.to_string()).collect());
    }
    last
}

#[test]
fn test_diff_all_new() {
    let cache = make_cache();
    let repos = vec![make_repo("a/b"), make_repo("c/d")];
    let last = LastSeen::new();
    let items = repo_items(&repos);
    let (old, new) = cache.diff_multi(&items, &last);
    assert!(old.is_empty());
    assert_eq!(new.len(), 2);
}

#[test]
fn test_diff_all_old() {
    let cache = make_cache();
    let repos = vec![make_repo("a/b"), make_repo("c/d")];
    let last = seen(&[("github_trending", &["a/b", "c/d"])]);
    let items = repo_items(&repos);
    let (old, new) = cache.diff_multi(&items, &last);
    assert_eq!(old.len(), 2);
    assert!(new.is_empty());
}

#[test]
fn test_diff_partial_overlap() {
    let cache = make_cache();
    let repos = vec![make_repo("a/b"), make_repo("c/d"), make_repo("e/f")];
    let last = seen(&[("github_trending", &["a/b"])]);
    let items = repo_items(&repos);
    let (old, new) = cache.diff_multi(&items, &last);
    assert_eq!(old.len(), 1);
    assert_eq!(old[0].id, "a/b");
    assert_eq!(new.len(), 2);
}

#[test]
fn test_diff_empty_repos() {
    let cache = make_cache();
    let items: Vec<TrendingItem> = vec![];
    let last = seen(&[("github_trending", &["a/b"])]);
    let (old, new) = cache.diff_multi(&items, &last);
    assert!(old.is_empty());
    assert!(new.is_empty());
}

#[test]
fn test_save_and_load_empty() {
    let data = CacheData { version: "2".into(), sources: vec![] };
    let loaded = data.seen();
    assert!(loaded.get("github_trending").is_none());
}

#[test]
fn test_save_and_load_items() {
    let cache = make_cache();
    let items = vec![
        make_item("github_trending", "a/b", "https://github.com/a/b"),
        make_item("hacker_news", "story_1", "https://example.com/1"),
    ];
    let data = cache.save_data(&items, "2026-07-04");
    let loaded = data.seen();
    assert_eq!(data.sources.len(), 2);
    assert_eq!(loaded.get("github_trending").unwrap().len(), 1);
    assert!(loaded.contains("github_trending", "a/b"));
    assert_eq!(loaded.get("hacker_news").unwrap().len(), 1);
    assert!(loaded.contains("hacker_news", "story_1"));
}

#[test]
fn test_diff_multi_all_new() {
    let cache = make_cache();
    let items = vec![
        make_item("github_trending", "a/b", ""),
        make_item("hacker_news", "story_1", ""),
    ];
    let last = LastSeen::new();
    let (old, new) = cache.diff_multi(&items, &last);
    assert_eq!(old.len(), 0);
    assert_eq!(new.len(), 2);
}

#[test]
fn test_diff_multi_partial() {
    let cache = make_cache();
    let items = vec![
        make_item("github_trending", "a/b", ""),
        make_item("github_trending", "c/d", ""),
        make_item("hacker_news", "story_1", ""),
    ];
    let last = seen(&[("github_trending", &["a/b"])]);
    let (old, new) = cache.diff_multi(&items, &last);
    assert_eq!(old.len(), 1);
    assert_eq!(old[0].id, "a/b");
    assert_eq!(new.len(), 2);
}

#[test]
fn test_old_format_migration() {
    let old = OldCacheData { date: "2026-07-04".into(), names: vec!["a/b".into(), "c/d".into()] };
    let data = old.migrate();
    let loaded = data.seen();
    assert_eq!(data.sources.len(), 1);
    assert!(loaded.get("github_trending").is_some());
    assert_eq!(loaded.get("github_trending").unwrap().len(), 2);
    assert!(loaded.contains("github_trending", "a/b"));
    assert_eq!(data.version, "2");
    assert_eq!(data.sources[0].1.date, "2026-07-04");
    assert_eq!(data.sources[0].1.items[1].url, "https://github.com/c/d");
}

#[test]
fn test_content_hash() {
    let cache = make_cache();
    let hash1 = cache.compute_url_hash("https://github.com/rust-lang/rust");
    let hash2 = cache.compute_url_hash("https://github.com/rust-lang/rust");
    assert_eq!(hash1, hash2);
    let hash3 = cache.compute_url_hash("https://example.com");
    assert_ne!(hash1, hash3);
}

#[test]
fn test_content_hashes_storage() {
    let cache = make_cache();
    let content = ExternalContent {
        url: "https://github.com/rust-lang/rust".into(),
        content_type: ContentType::GitHubReadme,
        text: "content".into(),
        word_count: 1,
    };
    let items = vec![TrendingItem {
        source: "github_trending".into(),
        id: "rust-lang/rust".into(),
        title: "rust".into(),
        url: "https://github.com/rust-lang/rust".into(),
        score: None,
        external_content: Some(content),
        summary: None,
    }];
    let data = cache.save_data(&items, "2026-07-04");
    let hashes = data.content_hashes();
    assert_eq!(hashes.len(), 1);
    assert!(hashes.iter().any(|(url, _)| url == "https://github.com/rust-lang/rust"));
}

#[test]
fn test_content_hash_consistency() {
    let cache = make_cache();
    let hash = cache.compute_url_hash("hello");
    assert_eq!(hash.len(), 16);
    assert!(hash.chars().all(|c| c.is_ascii_hexdigit()));
}

#[test]
fn hash_is_sixteen_hex_digits_of_the_number() {
    assert_eq!(hex16(0), "0000000000000000");
    assert_eq!(hex16(255), "00000000000000ff");
    assert_eq!(hex16(u64::MAX), "ffffffffffffffff");
    assert_eq!(hex16(0x0123456789abcdef), "0123456789abcdef");
}

#[test]
fn hash_is_not_the_url_itself() {
    let cache = make_cache();
    let h = cache.compute_url_hash("0123456789abcdef");
    assert_eq!(h.len(), 16);
    assert_eq!(
        h,
        format!("{:016x}", {
            let mut hasher = std::collections::hash_map::DefaultHasher::new();
            "0123456789abcdef".hash(&mut hasher);
            hasher.finish()
        })
    );
}

#[test]
fn saved_data_groups_by_source_in_order() {
    let cache = make_cache();
    let mut with_content = make_item("hacker_news", "story_2", "https://example.com/2");
    with_content.external_content = Some(ExternalContent {
        url: "https://example.com/2".into(),
        content_type: ContentType::WebArticle,
        text: "text".into(),
        word_count: 1,
    });
    let items = vec![
        make_item("hacker_news", "story_1", "https://example.com/1"),
        make_item("github_trending", "a/b", "https://github.com/a/b"),
        with_content,
    ];
    let data = cache.save_data(&items, "2026-07-05");
    assert_eq!(data.version, "2");
    assert_eq!(data.sources.len(), 2);
    assert_eq!(data.sources[0].0, "hacker_news");
    assert_eq!(data.sources[1].0, "github_trending");
    assert_eq!(data.sources[0].1.date, "2026-07-05");
    assert_eq!(data.sources[0].1.items.len(), 2);
    assert_eq!(data.sources[0].1.items[0].content_hash, None);
    assert_eq!(
        data.sources[0].1.items[1].content_hash,
        Some(cache.compute_url_hash("https://example.com/2"))
    );
}

#[test]
fn rerun_against_saved_cache_finds_nothing_new() {
    let cache = make_cache();
    let items = vec![
        make_item("github_trending", "a/b", "https://github.com/a/b"),
        make_item("hacker_news", "story_1", "https://example.com/1"),
        make_item("hacker_news", "story_2", "https://example.com/2"),
    ];
    let loaded = cache.save_data(&items, "2026-07-05").seen();
    let (old, new) = cache.diff_multi(&items, &loaded);
    assert_eq!(old.len(), 3);
    assert!(new.is_empty());
}

#[test]
fn same_id_under_another_source_is_new() {
    let cache = make_cache();
    let items = vec![make_item("lobsters", "a/b", "")];
    let last = seen(&[("github_trending", &["a/b"])]);
    let (old, new) = cache.diff_multi(&items, &last);
    assert!(old.is_empty());
    assert_eq!(new.len(), 1);
}

#[test]
fn diff_partitions_the_run() {
    let cache = make_cache();
    let items = vec![
        make_item("github_trending", "a/b", ""),
        make_item("github_trending", "c/d", ""),
        make_item("hacker_news", "story_1", ""),
        make_item("hacker_news", "story_2", ""),
    ];
    let last = seen(&[("github_trending", &["c/d"]), ("hacker_news", &["story_1", "x"])]);
    let (old, new) = cache.diff_multi(&items, &last);
    assert_eq!(old.len() + new.len(), items.len());
    assert_eq!(old.iter().map(|i| i.id.as_str()).collect::<Vec<_>>(), vec!["c/d", "story_1"]);
    assert_eq!(new.iter().map(|i| i.id.as_str()).collect::<Vec<_>>(), vec!["a/b", "story_2"]);
}

#[test]
fn later_insert_replaces_ids() {
    let mut last = LastSeen::new();
    last.insert("github_trending".into(), vec!["a/b".into()]);
    last.insert("github_trending".into(), vec!["c/d".into()]);
    assert!(!last.contains("github_trending", "a/b"));
    assert!(last.contains("github_trending", "c/d"));
    assert!(!last.contains("hacker_news", "c/d"));
}

#[test]
fn migration_lists_each_name_once() {
    let old = OldCacheData {
        date: "2026-07-04".into(),
        names: vec!["a/b".into(), "c/d".into(), "a/b".into()],
    };
    let data = old.migrate();
    assert_eq!(data.sources[0].0, "github_trending");
    let ids: Vec<&str> = data.sources[0].1.items.iter().map(|e| e.id.as_str()).collect();
    assert_eq!(ids, vec!["a/b", "c/d"]);
    assert!(data.sources[0].1.items.iter().all(|e| e.content_hash.is_none()));
    assert!(!data.seen().contains("hacker_news", "a/b"));
}

#[test]
fn content_hashes_follow_file_order() {
    let data = CacheData {
        version: "2".into(),
        sources: vec![
            (
                "a".into(),
                trending_bot::cache::SourceCache {
                    date: "d".into(),
                    items: vec![
                        trending_bot::cache::CacheEntry {
                            id: "1".into(),
                            url: "u1".into(),
                            content_hash: Some("h1".into()),
                        },
                        trending_bot::cache::CacheEntry { id: "2".into(), url: "u2".into(), content_hash: None },
                    ],
                },
            ),
            (
                "b".into(),
                trending_bot::cache::SourceCache {
                    date: "d".into(),
                    items: vec![trending_bot::cache::CacheEntry {
                        id: "3".into(),
                        url: "u3".into(),
                        content_hash: Some("h3".into()),
                    }],
                },
            ),
        ],
    };
    assert_eq!(
        data.content_hashes(),
        vec![("u1".to_string(), "h1".to_string()), ("u3".to_string(), "h3".to_string())]
    );
}

#[test]
fn home_dir_falls_back_in_order() {
    assert_eq!(home_dir(Some("/home/a".into()), Some("C:/b".into())), "/home/a");
    assert_eq!(home_dir(None, Some("C:/b".into())), "C:/b");
    assert_eq!(home_dir(None, None), ".");
}

#[test]
fn cache_files_are_in_the_directory() {
    let cache = RepoCache::new_with_dir("/tmp/x".to_string());
    assert_eq!(PathBuf::from(cache.cache_path()), PathBuf::from("/tmp/x/data_v2.json"));
    assert_eq!(PathBuf::from(cache.old_cache_path()), PathBuf::from("/tmp/x/last_repos.json"));
    assert_eq!(cache.dir(), "/tmp/x");
    assert_eq!(cache.cache_path(), "/tmp/x/data_v2.json");
}

#[test]
fn cache_goes_under_the_home_directory() {
    let cache = RepoCache::new(Some("/home/a".into()), Some("/home/b".into()));
    assert_eq!(cache.dir(), "/home/a/Library/Caches/trending-bot");
    assert_eq!(cache.cache_path(), "/home/a/Library/Caches/trending-bot/data_v2.json");
    let cache = RepoCache::new(None, Some("/home/b".into()));
    assert_eq!(cache.dir(), "/home/b/Library/Caches/trending-bot");
    let cache = RepoCache::new(None, None);
    assert_eq!(cache.dir(), "./Library/Caches/trending-bot");
}

#[test]
fn only_entries_with_content_are_found_with_hashes() {
    let cache = make_cache();
    let mut with = make_item("hacker_news", "story_1", "https://a.example/1");
    with.external_content = Some(ExternalContent {
        url: "https://a.example/1".into(),
        content_type: ContentType::WebArticle,
        text: "t".into(),
        word_count: 1,
    });
    let without = make_item("hacker_news", "story_2", "https://a.example/2");
    let data = cache.save_data(&[with, without], "2026-07-04");
    assert_eq!(
        data.content_hashes(),
        vec![("https://a.example/1".to_string(), cache.compute_url_hash("https://a.example/1"))]
    );
}
