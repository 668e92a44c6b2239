use trending_bot::item::{ContentType, ExternalContent, TrendingItem};
use trending_bot::json::{JsonNumber, JsonValue};
use trending_bot::summary::{
    api_key_from_env, api_key_from_security, api_key_security_args, batch_reply_results,
    batch_request, batch_results,
    build_batch_prompt, build_prompt, group_indices, reply_text, single_request, ApiKeyError,
    SummaryAction, SummaryError, SummaryRun, MAX_BATCH_CONTENT_CHARS,
};

    #[test]
    fn test_build_prompt_github() {
        let content = ExternalContent {
            url: "https://github.com/rust-lang/rust".into(),
            content_type: ContentType::GitHubReadme,
            text: "# Rust\n\nA safe language.".into(),
            word_count: 5,
        };
        let prompt = build_prompt(&content);
        assert!(prompt.contains("GitHub 仓库"));
        assert!(prompt.contains("Rust\n\nA safe language."));
    }

    #[test]
    fn test_build_prompt_issue() {
        let content = ExternalContent {
            url: "https://github.com/rust-lang/rust/issues/123".into(),
            content_type: ContentType::GitHubIssue,
            text: "# Bug report\n\nSomething broke.".into(),
            word_count: 5,
        };
        let prompt = build_prompt(&content);
        assert!(prompt.contains("GitHub Issue"));
        assert!(prompt.contains("Bug report"));
    }

    #[test]
    fn test_build_prompt_web() {
        let content = ExternalContent {
            url: "https://example.com/article".into(),
            content_type: ContentType::WebArticle,
            text: "Some article text.".into(),
            word_count: 3,
        };
        let prompt = build_prompt(&content);
        assert!(prompt.contains("网页文章"));
        assert!(prompt.contains("Some article text."));
    }

    #[test]
    fn test_group_indices_empty() {
        let items: Vec<TrendingItem> = vec![];
        let batches = group_indices(&items);
        assert!(batches.is_empty());
    }

    #[test]
    fn test_group_indices_all_no_content() {
        let items = vec![
            TrendingItem {
                source: "test".into(), id: "1".into(), title: "a".into(),
                url: "https://x.com".into(), score: None,
                external_content: None, summary: None,
            },
        ];
        let batches = group_indices(&items);
        assert!(batches.is_empty());
    }

    #[test]
    fn test_group_indices_small_content_single_batch() {
        let items = vec![
            TrendingItem {
                source: "test".into(), id: "1".into(), title: "a".into(),
                url: "https://x.com".into(), score: None,
                external_content: Some(ExternalContent {
                    url: "".into(), content_type: ContentType::WebArticle,
                    text: "short".into(), word_count: 1,
                }),
                summary: None,
            },
            TrendingItem {
                source: "test".into(), id: "2".into(), title: "b".into(),
                url: "https://y.com".into(), score: None,
                external_content: Some(ExternalContent {
                    url: "".into(), content_type: ContentType::WebArticle,
                    text: "also short".into(), word_count: 2,
                }),
                summary: None,
            },
        ];
        let batches = group_indices(&items);
        assert_eq!(batches.len(), 1);
        assert_eq!(batches[0].len(), 2);
    }

    #[test]
    fn test_group_indices_large_content_splits() {
        let items = vec![
            TrendingItem {
                source: "test".into(), id: "big".into(), title: "big".into(),
                url: "https://x.com".into(), score: None,
                external_content: Some(ExternalContent {
                    url: "".into(), content_type: ContentType::WebArticle,
                    text: "x".repeat(MAX_BATCH_CONTENT_CHARS),
                    word_count: 1,
                }),
                summary: None,
            },
            TrendingItem {
                source: "test".into(), id: "small".into(), title: "small".into(),
                url: "https://y.com".into(), score: None,
                external_content: Some(ExternalContent {
                    url: "".into(), content_type: ContentType::WebArticle,
                    text: "short text".into(), word_count: 2,
                }),
                summary: None,
            },
        ];
        let batches = group_indices(&items);
        assert_eq!(batches.len(), 2);
    }

    #[test]
    fn test_build_batch_prompt_contains_items() {
        let items = vec![
            TrendingItem {
                source: "test".into(), id: "1".into(), title: "First".into(),
                url: "https://a.com".into(), score: None,
                external_content: Some(ExternalContent {
                    url: "".into(), content_type: ContentType::GitHubReadme,
                    text: "Content A".into(), word_count: 2,
                }),
                summary: None,
            },
            TrendingItem {
                source: "test".into(), id: "2".into(), title: "Second".into(),
                url: "https://b.com".into(), score: None,
                external_content: Some(ExternalContent {
                    url: "".into(), content_type: ContentType::WebArticle,
                    text: "Content B".into(), word_count: 2,
                }),
                summary: None,
            },
        ];
        let refs: Vec<&TrendingItem> = items.iter().collect();
        let prompt = build_batch_prompt(&refs);
        assert!(prompt.contains("条目 0"));
        assert!(prompt.contains("条目 1"));
        assert!(prompt.contains("First"));
        assert!(prompt.contains("Second"));
        assert!(prompt.contains("Content A"));
        assert!(prompt.contains("Content B"));
    }

fn item(id: &str, text: Option<&str>) -> TrendingItem {
    TrendingItem {
        source: "test".into(),
        id: id.into(),
        title: format!("title {}", id),
        url: format!("https://x.com/{}", id),
        score: None,
        external_content: text.map(|t| ExternalContent {
            url: "".into(),
            content_type: ContentType::WebArticle,
            text: t.into(),
            word_count: 1,
        }),
        summary: None,
    }
}

#[test]
fn prompt_is_exact() {
    let content = ExternalContent {
        url: "u".into(),
        content_type: ContentType::GitHubIssue,
        text: "Body".into(),
        word_count: 12,
    };
    assert_eq!(build_prompt(&content), "以下是 GitHub Issue 内容（12 字）：\n\nBody");
}

#[test]
fn batch_prompt_is_exact_and_skips_entries_without_content() {
    let items = vec![item("1", Some("A")), item("2", None), item("3", Some("C"))];
    let refs: Vec<&TrendingItem> = items.iter().collect();
    assert_eq!(
        build_batch_prompt(&refs),
        "请总结以下 3 条内容，每条用 2-3 句中文概括核心要点。\n返回 JSON 格式，键为序号 \"0\", \"1\", ...，值为总结文本。\n\n--- 条目 0: [网页文章] title 1 ---\nA\n--- 条目 2: [网页文章] title 3 ---\nC"
    );
}

#[test]
fn batches_are_greedy_and_cover_every_entry_with_content() {
    let big = "x".repeat(30_000);
    let items = vec![
        item("a", Some(&big)),
        item("b", None),
        item("c", Some(&big)),
        item("d", Some("small")),
        item("e", Some(&"y".repeat(MAX_BATCH_CONTENT_CHARS))),
        item("f", Some("tail")),
    ];
    let batches = group_indices(&items);
    assert_eq!(batches, vec![vec![0], vec![2, 3], vec![4], vec![5]]);
    let flat: Vec<usize> = batches.concat();
    assert_eq!(flat, vec![0, 2, 3, 4, 5]);
}

#[test]
fn content_length_counts_bytes() {
    let wide = "字".repeat(17_000);
    let items = vec![item("a", Some(&wide)), item("b", Some(&wide))];
    assert_eq!(group_indices(&items), vec![vec![0], vec![1]]);
}

#[test]
fn requests_are_exact() {
    let items = vec![item("1", Some("A")), item("2", Some("B"))];
    let single = single_request(&items[0]).unwrap();
    assert_eq!(single.model, "deepseek-chat");
    assert_eq!(single.max_tokens, 300);
    assert!(!single.json_reply);
    assert_eq!(single.user, "以下是网页文章内容（1 字）：\n\nA");
    assert!(single.system.contains("限 3-5 句话"));
    assert!(matches!(single_request(&item("3", None)), Err(SummaryError::NoContent)));

    let refs: Vec<&TrendingItem> = items.iter().collect();
    let batch = batch_request(&refs);
    assert_eq!(batch.max_tokens, 1100);
    assert!(batch.json_reply);
    assert!(batch.system.ends_with("示例：{\"0\": \"总结内容...\", \"1\": \"总结内容...\"}"));
    assert_eq!(batch.user, build_batch_prompt(&refs));
}

#[test]
fn reply_text_is_the_first_choice_trimmed() {
    assert_eq!(reply_text(&vec!["  hello \n".into(), "x".into()]).unwrap(), "hello");
    assert!(matches!(reply_text(&vec![]), Err(SummaryError::EmptyReply)));
}

fn obj(members: Vec<(&str, JsonValue)>) -> JsonValue {
    JsonValue::Object(members.into_iter().map(|(k, v)| (k.to_string(), v)).collect())
}

#[test]
fn batch_reply_is_read_by_position() {
    let items = vec![item("a", Some("A")), item("b", Some("B"))];
    let refs: Vec<&TrendingItem> = items.iter().collect();
    let good = obj(vec![
        ("1", JsonValue::String("sum b".into())),
        ("0", JsonValue::String("sum a".into())),
    ]);
    assert_eq!(
        batch_results(&refs, &good).unwrap(),
        vec![("a".to_string(), "sum a".to_string()), ("b".to_string(), "sum b".to_string())]
    );
    let missing = obj(vec![
        ("0", JsonValue::String("sum a".into())),
        ("1", JsonValue::Number(JsonNumber::PosInt(1))),
    ]);
    match batch_results(&refs, &missing) {
        Err(e @ SummaryError::MissingSummary { .. }) => {
            assert_eq!(e.message(), "批量总结响应缺少条目 b 的总结 (key=1)");
        },
        other => panic!("unexpected {:?}", other),
    }
    let not_object = JsonValue::Array(vec![]);
    match batch_results(&refs, &not_object) {
        Err(e @ SummaryError::NotObject) => assert_eq!(e.message(), "批量总结响应不是 JSON 对象"),
        other => panic!("unexpected {:?}", other),
    }
    assert_eq!(SummaryError::NotJson.message(), "批量总结响应不是有效 JSON");
    assert_eq!(SummaryError::EmptyReply.message(), "DeepSeek 返回空响应");
    assert_eq!(SummaryError::NoContent.message(), "条目没有外部内容可总结");
}

#[test]
fn summarizing_run_steps() {
    let big = "x".repeat(MAX_BATCH_CONTENT_CHARS);
    let mut items = vec![
        item("a", Some("A")),
        item("b", Some("B")),
        item("c", Some(&big)),
        item("d", Some("D")),
        item("a", Some("again")),
    ];
    let mut run = SummaryRun::new(&items);
    // batch [0, 1] answered
    match run.next_action() {
        SummaryAction::Batch(b) => assert_eq!(b, vec![0, 1]),
        other => panic!("unexpected {:?}", other),
    }
    run.batch_done(&mut items, Some(vec![("a".into(), "sa".into()), ("b".into(), "sb".into())]));
    assert_eq!(items[0].summary.as_deref(), Some("sa"));
    assert_eq!(items[0].title, "title a");
    assert_eq!(items[1].summary.as_deref(), Some("sb"));
    assert_eq!(items[4].summary, None);
    assert_eq!(run.summarized(), 2);
    // the entry at the limit goes alone
    match run.next_action() {
        SummaryAction::Single(i) => assert_eq!(i, 2),
        other => panic!("unexpected {:?}", other),
    }
    run.single_done(&mut items, None);
    assert_eq!(items[2].summary, None);
    match run.next_action() {
        SummaryAction::Batch(b) => assert_eq!(b, vec![3, 4]),
        other => panic!("unexpected {:?}", other),
    }
    run.batch_done(&mut items, None);
    match run.next_action() {
        SummaryAction::Single(i) => assert_eq!(i, 3),
        other => panic!("unexpected {:?}", other),
    }
    run.single_done(&mut items, Some("sd".into()));
    match run.next_action() {
        SummaryAction::Single(i) => assert_eq!(i, 4),
        other => panic!("unexpected {:?}", other),
    }
    run.single_done(&mut items, Some("se".into()));
    assert!(matches!(run.next_action(), SummaryAction::Done));
    assert_eq!(items[3].summary.as_deref(), Some("sd"));
    assert_eq!(items[4].summary.as_deref(), Some("se"));
    assert_eq!(run.summarized(), 4);
}

#[test]
fn api_key_sources() {
    assert_eq!(api_key_from_env(Some("k".into())), Some("k".to_string()));
    assert_eq!(api_key_from_env(Some(" k ".into())), Some(" k ".to_string()));
    assert_eq!(api_key_from_env(Some("".into())), None);
    assert_eq!(api_key_from_env(None), None);
    assert_eq!(api_key_security_args(), vec!["find-generic-password", "-s", "DEEPSEEK_API_KEY", "-w"]);
    assert_eq!(api_key_from_security(true, b" sk-1\n".to_vec(), b"").unwrap(), "sk-1");
    assert!(matches!(api_key_from_security(true, b"  ".to_vec(), b""), Err(ApiKeyError::Empty)));
    assert!(matches!(api_key_from_security(true, vec![0xff, 0xfe], b""), Err(ApiKeyError::NotUtf8)));
    match api_key_from_security(false, vec![], b" not found \xff") {
        Err(e @ ApiKeyError::NotFound { .. }) => {
            let msg = e.message();
            assert!(msg.contains("API key"));
            assert!(msg.ends_with("security 错误: not found \u{fffd}"));
        },
        other => panic!("unexpected {:?}", other),
    }
    assert!(ApiKeyError::NotRun.message().contains("security"));
}

#[test]
fn batch_reply_text_is_parsed_then_read() {
    let items = vec![item("a", Some("A")), item("b", Some("B"))];
    let refs: Vec<&TrendingItem> = items.iter().collect();
    assert_eq!(
        batch_reply_results(&refs, "{\"1\": \"sum b\", \"0\": \"sum a\", \"x\": 3}").unwrap(),
        vec![("a".to_string(), "sum a".to_string()), ("b".to_string(), "sum b".to_string())]
    );
    assert!(matches!(batch_reply_results(&refs, "not json"), Err(SummaryError::NotJson)));
    assert!(matches!(batch_reply_results(&refs, "{\"0\": \"a\""), Err(SummaryError::NotJson)));
    assert!(matches!(batch_reply_results(&refs, "[1, 2]"), Err(SummaryError::NotObject)));
    match batch_reply_results(&refs, "{\"0\": \"sum a\", \"1\": 5}") {
        Err(SummaryError::MissingSummary { id, key }) => {
            assert_eq!(id, "b");
            assert_eq!(key, "1");
        }
        other => panic!("unexpected {:?}", other),
    }
}

#[test]
fn summarizing_sets_summaries_only() {
    let mut items = vec![item("a", None), item("b", Some("B")), item("a", Some("A2"))];
    let before: Vec<(String, String, String)> =
        items.iter().map(|it| (it.id.clone(), it.title.clone(), it.url.clone())).collect();
    let mut run = SummaryRun::new(&items);
    match run.next_action() {
        SummaryAction::Batch(b) => assert_eq!(b, vec![1, 2]),
        other => panic!("unexpected {:?}", other),
    }
    // a summary goes to the first entry with its id, as the ids are matched
    run.batch_done(&mut items, Some(vec![("b".into(), "sb".into()), ("a".into(), "sa".into())]));
    let after: Vec<(String, String, String)> =
        items.iter().map(|it| (it.id.clone(), it.title.clone(), it.url.clone())).collect();
    assert_eq!(before, after);
    assert!(items[0].external_content.is_none());
    assert_eq!(items[0].summary.as_deref(), Some("sa"));
    assert_eq!(items[1].summary.as_deref(), Some("sb"));
    assert_eq!(items[2].summary, None);
    assert!(items[2].external_content.is_some());
}
