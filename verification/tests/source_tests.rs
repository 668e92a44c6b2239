use trending_bot::repo::Repo;
use trending_bot::source::{parse_from_html, repos_to_items, TrendingPageError};

    #[test]
    fn test_parse_repo_name_from_href() {
        let html = r#"
<article class="Box-row">
  <h2 class="h3 lh-condensed">
    <a data-view-component="true" class="Link" href="/rust-lang/rust">
      <span data-view-component="true" class="text-normal">rust-lang /</span>
      rust
    </a>
  </h2>
  <p class="col-9 color-fg-muted my-1 tmp-pr-4">
    A safe, concurrent, practical language.
  </p>
  <div class="f6 color-fg-muted mt-2">
    <span class="tmp-mr-3 d-inline-block ml-0 tmp-ml-0">
      <span class="repo-language-color" style="background-color: #3572A5"></span>
      <span itemprop="programmingLanguage">Rust</span>
    </span>
    <a href="/rust-lang/rust/stargazers" data-view-component="true" class="tmp-mr-3 Link Link--muted d-inline-block">
      <svg aria-label="star" role="img" class="octicon octicon-star"><path d="..."></path></svg>
      101,234
    </a>
    <a href="/rust-lang/rust/forks" data-view-component="true" class="tmp-mr-3 Link Link--muted d-inline-block">
      <svg aria-label="fork" role="img" class="octicon octicon-repo-forked"><path d="..."></path></svg>
      5,678
    </a>
    <span data-view-component="true" class="tmp-mr-3 d-inline-block">Built by someone</span>
    <span data-view-component="true" class="d-inline-block float-sm-right">
      <svg aria-hidden="true" class="octicon octicon-star"><path d="..."></path></svg>
      567 stars today
    </span>
  </div>
</article>
"#;

        let repos = parse_from_html(html, 5).unwrap();
        assert_eq!(repos.len(), 1);
        assert_eq!(repos[0].name, "rust-lang/rust");
        assert_eq!(repos[0].url, "https://github.com/rust-lang/rust");
        assert_eq!(
            repos[0].description.as_deref(),
            Some("A safe, concurrent, practical language.")
        );
        assert_eq!(repos[0].language.as_deref(), Some("Rust"));
        assert_eq!(repos[0].stars_total, 101234);
        assert_eq!(repos[0].stars_today, 567);
    }

    #[test]
    fn test_parse_multiple_repos() {
        let html = r#"
<article class="Box-row">
  <h2 class="h3 lh-condensed">
    <a data-view-component="true" class="Link" href="/rust-lang/rust">
      <span class="text-normal">rust-lang /</span> rust
    </a>
  </h2>
  <p class="col-9 color-fg-muted my-1 tmp-pr-4">A safe language.</p>
  <div class="f6 color-fg-muted mt-2">
    <span class="tmp-mr-3 d-inline-block">
      <span class="repo-language-color"></span>
      <span itemprop="programmingLanguage">Rust</span>
    </span>
    <a href="/rust-lang/rust/stargazers" class="tmp-mr-3 Link Link--muted d-inline-block">
      <svg class="octicon octicon-star"><path d="..."></path></svg>
      101k
    </a>
    <span class="d-inline-block float-sm-right">
      <svg class="octicon octicon-star"><path d="..."></path></svg>
      567 stars today
    </span>
  </div>
</article>
<article class="Box-row">
  <h2 class="h3 lh-condensed">
    <a data-view-component="true" class="Link" href="/denoland/deno">
      <span class="text-normal">denoland /</span> deno
    </a>
  </h2>
  <p class="col-9 color-fg-muted my-1 tmp-pr-4">A modern runtime.</p>
  <div class="f6 color-fg-muted mt-2">
    <span class="tmp-mr-3 d-inline-block">
      <span class="repo-language-color"></span>
      <span itemprop="programmingLanguage">TypeScript</span>
    </span>
    <a href="/denoland/deno/stargazers" class="tmp-mr-3 Link Link--muted d-inline-block">
      <svg class="octicon octicon-star"><path d="..."></path></svg>
      100k
    </a>
    <span class="d-inline-block float-sm-right">
      <svg class="octicon octicon-star"><path d="..."></path></svg>
      234 stars today
    </span>
  </div>
</article>
"#;

        let repos = parse_from_html(html, 5).unwrap();
        assert_eq!(repos.len(), 2);
        assert_eq!(repos[0].name, "rust-lang/rust");
        assert_eq!(repos[1].name, "denoland/deno");
        assert_eq!(repos[1].language.as_deref(), Some("TypeScript"));
        assert_eq!(repos[1].stars_today, 234);
    }

    #[test]
    fn test_parse_empty_html_returns_error() {
        let html = "<html><body>nothing here</body></html>";
        let result = parse_from_html(html, 5);
        assert!(result.is_err());
        let err = result.unwrap_err();
        let msg = err.message();
        assert!(msg.contains("未从 Trending 页面解析到"), "错误信息应包含提示: {}", msg);
    }

    #[test]
    fn test_parse_with_count_limit() {
        let mut html = String::new();
        html.push_str("<html><body>");
        for i in 0..10 {
            html.push_str(&format!(
                r#"
<article class="Box-row">
  <h2 class="h3 lh-condensed">
    <a class="Link" href="/owner/repo-{i}">
      <span class="text-normal">owner /</span> repo-{i}
    </a>
  </h2>
  <p class="col-9 color-fg-muted my-1 tmp-pr-4">Repo {i}</p>
  <div class="f6 color-fg-muted mt-2">
    <a href="/owner/repo-{i}/stargazers" class="tmp-mr-3 Link Link--muted d-inline-block">
      <svg class="octicon octicon-star"><path d="..."></path></svg>
      {i}k
    </a>
    <span class="d-inline-block float-sm-right">
      <svg class="octicon octicon-star"><path d="..."></path></svg>
      {i}00 stars today
    </span>
    <span class="tmp-mr-3 d-inline-block">
      <span itemprop="programmingLanguage">Rust</span>
    </span>
  </div>
</article>
"#, i = i));
        }
        html.push_str("</body></html>");

        let repos = parse_from_html(&html, 3).unwrap();
        assert_eq!(repos.len(), 3);
    }

    #[test]
    fn test_repos_to_items() {
        let repos = vec![
            Repo {
                name: "rust-lang/rust".into(),
                url: "https://github.com/rust-lang/rust".into(),
                description: Some("A safe language.".into()),
                language: Some("Rust".into()),
                stars_total: 100000,
                stars_today: 500,
            }
        ];
        let items = repos_to_items(&repos, "github_trending");
        assert_eq!(items.len(), 1);
        assert_eq!(items[0].source, "github_trending");
        assert_eq!(items[0].id, "rust-lang/rust");
        assert_eq!(items[0].title, "rust-lang/rust");
        assert_eq!(items[0].url, "https://github.com/rust-lang/rust");
        assert_eq!(items[0].score, Some(500));
        assert!(items[0].external_content.is_none());
    }

    #[test]
    fn test_repos_to_items_zero_stars_today() {
        let repos = vec![
            Repo {
                name: "owner/repo".into(),
                url: "https://github.com/owner/repo".into(),
                description: None,
                language: None,
                stars_total: 100,
                stars_today: 0,
            }
        ];
        let items = repos_to_items(&repos, "github_trending");
        assert_eq!(items.len(), 1);
        assert_eq!(items[0].source, "github_trending");
        assert_eq!(items[0].id, "owner/repo");
        assert_eq!(items[0].score, None);
        assert!(items[0].external_content.is_none());
    }

    #[test]
    fn test_repos_to_items_multiple() {
        let repos = vec![
            Repo {
                name: "a/b".into(),
                url: "https://github.com/a/b".into(),
                description: None,
                language: None,
                stars_total: 0,
                stars_today: 10,
            },
            Repo {
                name: "c/d".into(),
                url: "https://github.com/c/d".into(),
                description: None,
                language: None,
                stars_total: 0,
                stars_today: 20,
            },
        ];
        let items = repos_to_items(&repos, "github_trending");
        assert_eq!(items.len(), 2);
        assert_eq!(items[0].id, "a/b");
        assert_eq!(items[1].id, "c/d");
    }

    #[test]
    fn test_parse_repo_missing_description() {
        let html = r#"
<article class="Box-row">
  <h2 class="h3 lh-condensed">
    <a class="Link" href="/org/empty-desc">
      <span class="text-normal">org /</span> empty-desc
    </a>
  </h2>
  <div class="f6 color-fg-muted mt-2">
    <a href="/org/empty-desc/stargazers" class="tmp-mr-3 Link Link--muted d-inline-block">
      <svg class="octicon octicon-star"><path d="..."></path></svg>
      42
    </a>
    <span class="d-inline-block float-sm-right">
      <svg class="octicon octicon-star"><path d="..."></path></svg>
      5 stars today
    </span>
  </div>
</article>
"#;

        let repos = parse_from_html(html, 5).unwrap();
        assert_eq!(repos.len(), 1);
        assert_eq!(repos[0].name, "org/empty-desc");
        assert!(repos[0].description.is_none(), "描述缺失时应为 None");
        assert!(repos[0].language.is_none(), "语言缺失时应为 None");
    }

#[test]
fn page_error_messages() {
    assert_eq!(TrendingPageError::InvalidSelector.message(), "CSS 选择器解析失败");
    assert_eq!(
        TrendingPageError::NoRepos.message(),
        "未从 Trending 页面解析到任何项目，页面结构可能已变更"
    );
    assert_eq!(parse_from_html("<p>x</p>", 3).unwrap_err(), TrendingPageError::NoRepos);
}

#[test]
fn rows_without_a_link_are_skipped() {
    let html = r#"
<article class="Box-row"><p class="col-9 color-fg-muted">No link here</p></article>
<article class="Box-row">
  <h2 class="h3 lh-condensed"><a href="/x/y">x / y</a></h2>
  <a href="/x/y/stargazers">1.2k</a>
  <span class="d-inline-block float-sm-right">1,024 stars today</span>
</article>
"#;
    let repos = parse_from_html(html, 5).unwrap();
    assert_eq!(repos.len(), 1);
    assert_eq!(repos[0].name, "x/y");
    assert_eq!(repos[0].url, "https://github.com/x/y");
    assert_eq!(repos[0].stars_total, 1200);
    assert_eq!(repos[0].stars_today, 1024);
}
