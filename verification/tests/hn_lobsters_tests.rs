use trending_bot::hn::{collect_stories, first_ids, item_api_url, parse_story};
use trending_bot::json::{JsonNumber, JsonValue};
use trending_bot::lobsters::{hottest_items, parse_stories};

fn s(v: &str) -> JsonValue {
    JsonValue::String(v.to_string())
}

fn n(v: u64) -> JsonValue {
    JsonValue::Number(JsonNumber::PosInt(v))
}

fn obj(members: Vec<(&str, JsonValue)>) -> JsonValue {
    JsonValue::Object(members.into_iter().map(|(k, v)| (k.to_string(), v)).collect())
}

#[test]
fn test_parse_story_normal() {
    let json = obj(vec![
        ("id", n(42424242)),
        ("title", s("Test Story")),
        ("url", s("https://example.com/1")),
        ("score", n(150)),
        ("by", s("author1")),
        ("descendants", n(42)),
        ("type", s("story")),
    ]);
    let item = parse_story(&json).unwrap();
    assert_eq!(item.source, "hacker_news");
    assert_eq!(item.id, "story_42424242");
    assert_eq!(item.title, "Test Story");
    assert_eq!(item.url, "https://example.com/1");
    assert_eq!(item.score, Some(150));
}

#[test]
fn test_parse_story_no_url_filtered() {
    let json = obj(vec![
        ("id", n(42424243)),
        ("title", s("Ask HN: What are you working on?")),
        ("score", n(50)),
        ("type", s("story")),
    ]);
    assert!(parse_story(&json).is_none());
}

#[test]
fn test_parse_story_empty_url_filtered() {
    let json = obj(vec![
        ("id", n(42424244)),
        ("title", s("Some post")),
        ("url", s("")),
        ("score", n(10)),
        ("type", s("story")),
    ]);
    assert!(parse_story(&json).is_none());
}

#[test]
fn test_parse_lobsters_full() {
    let json = vec![obj(vec![
        ("short_id", s("abc123")),
        ("title", s("A Lobsters Story")),
        ("url", s("https://example.com/article")),
        ("score", n(85)),
        ("submitter_user", s("lobster_user")),
        ("comment_count", n(15)),
        ("tags", JsonValue::Array(vec![s("rust")])),
    ])];
    let items = parse_stories(&json, "lobsters");
    assert_eq!(items.len(), 1);
    assert_eq!(items[0].source, "lobsters");
    assert_eq!(items[0].id, "story_abc123");
    assert_eq!(items[0].score, Some(85));
}

#[test]
fn test_parse_lobsters_minimal() {
    let json = vec![obj(vec![
        ("short_id", s("def456")),
        ("title", s("Minimal Post")),
        ("url", s("https://example.com/minimal")),
        ("score", n(10)),
    ])];
    let items = parse_stories(&json, "lobsters");
    assert_eq!(items.len(), 1);
    assert_eq!(items[0].id, "story_def456");
    assert_eq!(items[0].title, "Minimal Post");
}

#[test]
fn test_parse_lobsters_empty() {
    let items = parse_stories(&vec![], "lobsters");
    assert!(items.is_empty());
}

#[test]
fn test_parse_lobsters_reality_format() {
    let json = vec![obj(vec![
        ("short_id", s("real1")),
        ("title", s("Real Lobsters Story")),
        ("url", s("https://example.com/real")),
        ("score", n(99)),
        ("submitter_user", s("real_user")),
    ])];
    let items = parse_stories(&json, "lobsters");
    assert_eq!(items.len(), 1);
    assert_eq!(items[0].source, "lobsters");
    assert_eq!(items[0].id, "story_real1");
    assert_eq!(items[0].score, Some(99));
}

#[test]
fn test_parse_lobsters_self_post() {
    let json = vec![obj(vec![
        ("short_id", s("self1")),
        ("title", s("Ask Lobsters: Something")),
        ("url", s("")),
        ("score", n(5)),
        ("submitter_user", s("asker")),
    ])];
    let items = parse_stories(&json, "lobsters");
    assert_eq!(items.len(), 1);
    assert_eq!(items[0].url, "");
}

#[test]
fn test_parse_lobsters_missing_required_field() {
    let json = vec![
        obj(vec![
            ("short_id", s("ok1")),
            ("title", s("Valid Story")),
            ("url", s("https://example.com/ok")),
        ]),
        obj(vec![("title", s("No Short ID")), ("url", s("https://example.com/no-id"))]),
        obj(vec![("short_id", s("no-title")), ("url", s("https://example.com/no-title"))]),
    ];
    let items = parse_stories(&json, "lobsters");
    assert_eq!(items.len(), 1);
    assert_eq!(items[0].id, "story_ok1");
}

#[test]
fn hottest_keeps_the_first_count() {
    let json: Vec<JsonValue> = (0..5)
        .map(|i| {
            obj(vec![
                ("short_id", s(&format!("id{}", i))),
                ("title", s("t")),
                ("url", s("u")),
            ])
        })
        .collect();
    let items = hottest_items(&json, 3);
    assert_eq!(items.len(), 3);
    assert_eq!(items[2].id, "story_id2");
    assert_eq!(hottest_items(&json, 9).len(), 5);
}

#[test]
fn hn_reads_the_first_ids_and_keeps_stories_with_links() {
    assert_eq!(first_ids(&vec![5, 6, 7], 2), vec![5, 6]);
    assert_eq!(first_ids(&vec![5, 6], 9), vec![5, 6]);
    assert_eq!(item_api_url(42), "https://hacker-news.firebaseio.com/v0/item/42.json");
    let replies = vec![
        Some(obj(vec![("id", n(1)), ("title", s("a")), ("url", s("https://a")), ("type", s("story"))])),
        None,
        Some(obj(vec![("id", n(2)), ("title", s("b")), ("url", s("")), ("type", s("story"))])),
        Some(obj(vec![
            ("id", n(3)),
            ("title", s("c")),
            ("url", s("https://c")),
            ("score", n(7)),
            ("type", s("story")),
        ])),
        Some(obj(vec![("id", n(4)), ("title", s("d")), ("url", s("https://d")), ("type", s("job"))])),
    ];
    let items = collect_stories(&replies);
    assert_eq!(items.len(), 2);
    assert_eq!(items[0].id, "story_1");
    assert_eq!(items[1].id, "story_3");
    assert_eq!(items[1].score, Some(7));
}

#[test]
fn hn_drops_items_that_are_not_stories() {
    let job = obj(vec![
        ("id", n(77)),
        ("title", s("We are hiring")),
        ("url", s("https://jobs.example.com")),
        ("type", s("job")),
    ]);
    assert!(parse_story(&job).is_none());
    let untyped = obj(vec![("id", n(78)), ("title", s("t")), ("url", s("https://e.com"))]);
    assert!(parse_story(&untyped).is_none());
}
