use trending_bot::item::{ContentType, ExternalContent, TrendingItem};
use trending_bot::repo::parse_star_count;

#[test]
fn test_trending_item_construction() {
    let item = TrendingItem {
        source: "hacker_news".into(),
        id: "story_12345".into(),
        title: "Test Story".into(),
        url: "https://example.com".into(),
        score: Some(100),
        external_content: None,
        summary: None,
    };
    assert_eq!(item.source, "hacker_news");
    assert_eq!(item.id, "story_12345");
}

#[test]
fn test_external_content_github_readme() {
    let content = ExternalContent {
        url: "https://github.com/rust-lang/rust".into(),
        content_type: ContentType::GitHubReadme,
        text: "# Rust\n\nA safe language.".into(),
        word_count: 5,
    };
    assert_eq!(content.content_type, ContentType::GitHubReadme);
    assert_eq!(content.word_count, 5);
}

#[test]
fn test_external_content_web_article() {
    let content = ExternalContent {
        url: "https://example.com/blog".into(),
        content_type: ContentType::WebArticle,
        text: "Some article text.".into(),
        word_count: 3,
    };
    assert_eq!(content.content_type, ContentType::WebArticle);
}

#[test]
fn test_trending_item_with_content() {
    let content = ExternalContent {
        url: "https://github.com/rust-lang/rust".into(),
        content_type: ContentType::GitHubReadme,
        text: "# Rust\n\nA safe, concurrent, practical language.".into(),
        word_count: 7,
    };
    let item = TrendingItem {
        source: "hacker_news".into(),
        id: "story_4242".into(),
        title: "Rust is great".into(),
        url: "https://github.com/rust-lang/rust".into(),
        score: None,
        external_content: Some(content),
        summary: None,
    };
    assert!(item.external_content.is_some());
    assert_eq!(item.external_content.as_ref().unwrap().content_type, ContentType::GitHubReadme);
}

#[test]
fn test_parse_plain_number() {
    assert_eq!(parse_star_count("1,234"), Some(1234));
    assert_eq!(parse_star_count("0"), Some(0));
    assert_eq!(parse_star_count("99999"), Some(99999));
}

#[test]
fn test_parse_k_suffix() {
    assert_eq!(parse_star_count("12.3k"), Some(12300));
    assert_eq!(parse_star_count("1k"), Some(1000));
    assert_eq!(parse_star_count("0.5k"), Some(500));
    assert_eq!(parse_star_count("100k"), Some(100000));
}

#[test]
fn test_parse_m_suffix() {
    assert_eq!(parse_star_count("1.5m"), Some(1_500_000));
    assert_eq!(parse_star_count("5.2m"), Some(5_200_000));
}

#[test]
fn test_parse_empty_string() {
    assert_eq!(parse_star_count(""), None);
    assert_eq!(parse_star_count("   "), None);
}

#[test]
fn test_parse_whitespace() {
    assert_eq!(parse_star_count("  1,234 "), Some(1234));
}

#[test]
fn star_count_other_suffixes_and_errors() {
    assert_eq!(parse_star_count("2B"), Some(2_000_000_000));
    assert_eq!(parse_star_count("1.5K"), Some(1500));
    assert_eq!(parse_star_count("k"), None);
    assert_eq!(parse_star_count("abc"), None);
    assert_eq!(parse_star_count("-5"), None);
    assert_eq!(parse_star_count(" 3 k"), Some(3000));
}

#[test]
fn item_clone_keeps_every_field() {
    let item = TrendingItem {
        source: "s".into(),
        id: "i".into(),
        title: "t".into(),
        url: "u".into(),
        score: Some(3),
        external_content: Some(ExternalContent {
            url: "u".into(),
            content_type: ContentType::GitHubIssue,
            text: "x".into(),
            word_count: 1,
        }),
        summary: Some("sum".into()),
    };
    let c = item.clone();
    assert_eq!(c.source, "s");
    assert_eq!(c.score, Some(3));
    assert_eq!(c.summary.as_deref(), Some("sum"));
    assert_eq!(c.external_content.unwrap().content_type, ContentType::GitHubIssue);
}

#[test]
fn star_count_ignores_commas_spaces_and_case() {
    assert_eq!(parse_star_count("1,234"), parse_star_count("1234"));
    assert_eq!(parse_star_count("1,2,3,4"), Some(1234));
    assert_eq!(parse_star_count("  1.5k \n"), parse_star_count("1.5k"));
    assert_eq!(parse_star_count("1.5K"), Some(1500));
    assert_eq!(parse_star_count("2M"), parse_star_count("2m"));
    assert_eq!(parse_star_count("1B"), Some(1_000_000_000));
}

#[test]
fn star_count_case_rule_holds_beyond_ascii() {
    assert_eq!(parse_star_count("\u{a0}1.5K\u{3000}"), Some(1500));
    assert_eq!(parse_star_count("\u{a0}1.5k\u{3000}"), Some(1500));
    assert_eq!(parse_star_count("1.5Kß"), parse_star_count("1.5kß"));
    assert_eq!(parse_star_count("Σ2K"), parse_star_count("Σ2k"));
}
