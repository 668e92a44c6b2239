use trending_bot::fetcher::{
    article_content, batch_plan, clean_text, content_request, detect_content_type,
    extract_article_text, extract_repo_name, is_github_issue_url, is_github_repo_url,
    issue_content, issue_number, readme_content, truncate_text, word_count, ContentRequest,
};
use trending_bot::item::{ContentType, TrendingItem};
use trending_bot::json::JsonValue;

#[test]
fn test_is_github_repo_url() {
    assert!(is_github_repo_url("https://github.com/rust-lang/rust"));
    assert!(is_github_repo_url("https://github.com/rust-lang/rust/"));
    assert!(!is_github_repo_url("https://github.com/rust-lang/rust/issues/1"));
    assert!(!is_github_repo_url("https://github.com/rust-lang/rust/pull/42"));
    assert!(!is_github_repo_url("https://example.com/article"));
    assert!(!is_github_repo_url("https://github.com"));
}

#[test]
fn test_is_github_issue_url() {
    assert!(is_github_issue_url("https://github.com/rust-lang/rust/issues/1"));
    assert!(is_github_issue_url("https://github.com/tokio-rs/tokio-console/issues/74066"));
    assert!(!is_github_issue_url("https://github.com/rust-lang/rust"));
    assert!(!is_github_issue_url("https://github.com/rust-lang/rust/"));
    assert!(!is_github_issue_url("https://github.com/rust-lang/rust/pull/42"));
    assert!(!is_github_issue_url("https://example.com/article"));
}

#[test]
fn test_extract_repo_name() {
    let (owner, repo) = extract_repo_name("https://github.com/rust-lang/rust").unwrap();
    assert_eq!(owner, "rust-lang");
    assert_eq!(repo, "rust");
    let (owner2, repo2) = extract_repo_name("https://github.com/denoland/deno/issues/1").unwrap();
    assert_eq!(owner2, "denoland");
    assert_eq!(repo2, "deno");
    assert!(extract_repo_name("https://example.com").is_none());
}

#[test]
fn test_extract_article_text_with_article_tag() {
    let html = r#"<html><body>
            <nav>Skip Nav</nav>
            <article>
                <h1>Title</h1>
                <p>Article body text here.</p>
                <p>Second paragraph.</p>
            </article>
            <footer>Skip Footer</footer>
        </body></html>"#;
    let text = extract_article_text(html, 5000);
    assert!(text.contains("Article body text here."));
    assert!(text.contains("Second paragraph"));
    assert!(!text.contains("Skip Nav"));
    assert!(!text.contains("Skip Footer"));
}

#[test]
fn test_extract_article_fallback_to_main() {
    let html = r#"<html><body>
            <div role="main">
                <h1>Main Content</h1>
                <p>Body paragraph text.</p>
            </div>
        </body></html>"#;
    let text = extract_article_text(html, 5000);
    assert!(text.contains("Main Content"));
    assert!(text.contains("Body paragraph text."));
}

#[test]
fn test_extract_article_empty() {
    assert_eq!(extract_article_text("<html></html>", 100), "");
}

#[test]
fn test_truncate_text() {
    let long = "a".repeat(6000);
    let truncated = truncate_text(&long, 5000);
    assert_eq!(truncated.len(), 5003);
    assert!(truncated.ends_with("..."));
}

#[test]
fn test_short_text_not_truncated() {
    let text = "hello world";
    assert_eq!(truncate_text(text, 100), text);
}

#[test]
fn test_truncate_multibyte_char_boundary() {
    let text = "你好世界，这是一个测试";
    let truncated = truncate_text(text, 10);
    assert!(truncated.ends_with("..."));
    assert_eq!(truncated.len(), 12);
    assert_eq!(truncated, "你好世...");
}

#[test]
fn test_detect_content_type() {
    assert_eq!(detect_content_type("https://github.com/rust-lang/rust"), ContentType::GitHubReadme);
    assert_eq!(detect_content_type("https://github.com/rust-lang/rust/"), ContentType::GitHubReadme);
    assert_eq!(
        detect_content_type("https://github.com/rust-lang/rust/issues/123"),
        ContentType::GitHubIssue
    );
    assert_eq!(
        detect_content_type("https://github.com/tokio-rs/tokio-console/issues/74066"),
        ContentType::GitHubIssue
    );
    assert_eq!(detect_content_type("https://example.com/blog"), ContentType::WebArticle);
    assert_eq!(detect_content_type("https://github.com/rust-lang/rust/pull/42"), ContentType::WebArticle);
}

#[test]
fn content_requests_by_kind() {
    match content_request("https://github.com/rust-lang/rust") {
        Some(ContentRequest::Readme { owner, repo, api_url }) => {
            assert_eq!(owner, "rust-lang");
            assert_eq!(repo, "rust");
            assert_eq!(api_url, "https://api.github.com/repos/rust-lang/rust/readme");
        }
        other => panic!("unexpected {:?}", other),
    }
    match content_request("https://github.com/rust-lang/rust/issues/123") {
        Some(ContentRequest::Issue { api_url }) => {
            assert_eq!(api_url, "https://api.github.com/repos/rust-lang/rust/issues/123")
        }
        other => panic!("unexpected {:?}", other),
    }
    match content_request("https://example.com/blog") {
        Some(ContentRequest::Article { url }) => assert_eq!(url, "https://example.com/blog"),
        other => panic!("unexpected {:?}", other),
    }
}

#[test]
fn content_records() {
    let r = readme_content("o", "r", "# Title\n\nsome  words here");
    assert_eq!(r.url, "https://github.com/o/r/blob/main/README.md");
    assert_eq!(r.content_type, ContentType::GitHubReadme);
    assert_eq!(r.text, "# Title\n\nsome  words here");
    assert_eq!(r.word_count, 5);

    let data = JsonValue::Object(vec![
        ("title".to_string(), JsonValue::String("Crash".into())),
        ("body".to_string(), JsonValue::Null),
    ]);
    let i = issue_content("https://github.com/o/r/issues/1", &data);
    assert_eq!(i.text, "# Crash\n\n");
    assert_eq!(i.word_count, 2);
    assert_eq!(i.content_type, ContentType::GitHubIssue);

    let a = article_content("https://e.com", "<html><body><p>one two</p><p>three</p></body></html>");
    assert_eq!(a.url, "https://e.com");
    assert_eq!(a.text, "one two three");
    assert_eq!(a.word_count, 3);

    let long = "b".repeat(5100);
    assert_eq!(readme_content("o", "r", &long).text.len(), 5003);
}

#[test]
fn batch_plan_skips_known_and_repeated_urls() {
    let item = |id: &str, url: &str| TrendingItem {
        source: "s".into(),
        id: id.into(),
        title: "t".into(),
        url: url.into(),
        score: None,
        external_content: None,
        summary: None,
    };
    let items = vec![item("1", "u1"), item("2", "u2"), item("3", "u1"), item("4", "u3")];
    let plan = batch_plan(&items, &vec!["u2".to_string()]);
    assert_eq!(
        plan,
        vec![
            ("1".to_string(), true),
            ("2".to_string(), false),
            ("3".to_string(), false),
            ("4".to_string(), true)
        ]
    );
}

#[test]
fn clean_and_count_words() {
    assert_eq!(clean_text("  a \n\t b   c  "), "a b c");
    assert_eq!(word_count(" a b\nc "), 3);
    assert_eq!(word_count(""), 0);
}

#[test]
fn issue_number_is_the_segment_after_issues() {
    match content_request("https://github.com/123/r/issues/7") {
        Some(ContentRequest::Issue { api_url }) => {
            assert_eq!(api_url, "https://api.github.com/repos/123/r/issues/7")
        }
        other => panic!("unexpected {:?}", other),
    }
    assert_eq!(issue_number("https://github.com/123/r/issues/7"), Some(7));
    assert_eq!(issue_number("https://github.com/o/r/pull/7"), None);
}

#[test]
fn cleaning_twice_is_cleaning_once() {
    let once = clean_text("  a\t\tb \n\n c  ");
    assert_eq!(once, "a b c");
    assert_eq!(clean_text(&once), once);
    assert_eq!(clean_text(""), "");
    assert_eq!(clean_text(" \u{3000} "), "");
}
