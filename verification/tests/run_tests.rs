use trending_bot::cache::LastSeen;
use trending_bot::clock::{is_monday_for_date, is_monday_weekday, Date};
use trending_bot::item::TrendingItem;
use trending_bot::run::{
    count_by_source, count_content, new_item_ids, plan_content, select_sources, split_by_ids,
    ContentCounts, ContentStep,
};

#[test]
fn test_monday_source_inclusion() {
    let names = select_sources(&vec![], true);
    assert_eq!(names.len(), 6);
    assert!(names.contains(&"rust_weekly".to_string()));
    assert!(names.contains(&"bytebytego".to_string()));
    assert!(names.contains(&"ai_weekly".to_string()));
}

#[test]
fn test_is_monday_logic() {
    let dt = Date { year: 2026, month: 7, day: 6 };
    assert!(is_monday_for_date(dt));

    let dt = Date { year: 2026, month: 7, day: 7 };
    assert!(!is_monday_for_date(dt));

    let dt = Date { year: 2026, month: 7, day: 5 };
    assert!(!is_monday_for_date(dt));
}

#[test]
fn numbers_that_are_no_date_are_no_monday() {
    assert!(!is_monday_for_date(Date { year: 2026, month: 2, day: 30 }));
    assert!(!is_monday_for_date(Date { year: 2026, month: 13, day: 1 }));
    assert!(is_monday_for_date(Date { year: 2024, month: 1, day: 1 }));
}

#[test]
fn sources_named_or_default() {
    assert_eq!(select_sources(&vec![], false), vec!["github", "hn", "lobsters"]);
    assert_eq!(select_sources(&vec!["HN".into(), "GitHub".into()], true), vec!["hn", "github"]);
    assert!(is_monday_weekday("1"));
    assert!(!is_monday_weekday("7"));
}

fn make_item(source: &str, id: &str, url: &str) -> TrendingItem {
    TrendingItem {
        source: source.into(),
        id: id.into(),
        title: "t".into(),
        url: url.into(),
        score: None,
        external_content: None,
        summary: None,
    }
}

#[test]
fn new_ids_counts_and_content_plan() {
    let items = vec![
        make_item("github_trending", "a/b", "https://github.com/a/b"),
        make_item("hacker_news", "story_1", "https://e.com/1"),
        make_item("github_trending", "c/d", "https://github.com/c/d"),
        make_item("hacker_news", "story_2", "https://e.com/2"),
    ];
    let mut last = LastSeen::new();
    last.insert("github_trending".into(), vec!["a/b".into()]);
    last.insert("hacker_news".into(), vec!["story_2".into()]);
    let ids = new_item_ids(&items, &last);
    assert_eq!(ids, vec!["story_1", "c/d"]);

    let (new, old) = split_by_ids(&items, &ids);
    assert_eq!(new.iter().map(|i| i.id.as_str()).collect::<Vec<_>>(), vec!["story_1", "c/d"]);
    assert_eq!(old.iter().map(|i| i.id.as_str()).collect::<Vec<_>>(), vec!["a/b", "story_2"]);

    let counts = count_by_source(&items, &ids);
    assert_eq!(counts.len(), 2);
    assert_eq!(counts[0].0, "github_trending");
    assert_eq!((counts[0].1.new, counts[0].1.old), (1, 1));
    assert_eq!(counts[1].0, "hacker_news");
    assert_eq!((counts[1].1.new, counts[1].1.old), (1, 1));

    let hashes = vec![("https://github.com/c/d".to_string(), "0011".to_string())];
    let plan = plan_content(&items, &ids, &hashes);
    assert_eq!(plan, vec![ContentStep::Skip, ContentStep::Fetch, ContentStep::Cached, ContentStep::Skip]);

    let counts = count_content(&plan, &vec![false, false, true, false]);
    assert_eq!(counts, ContentCounts { fetched: 0, cached: 1, failed: 1 });
    let counts = count_content(&plan, &vec![false, true, false, false]);
    assert_eq!(counts, ContentCounts { fetched: 1, cached: 1, failed: 0 });
}
