use trending_bot::clock::today;
use trending_bot::format::{format_card, format_card_for_date, CardVariant};
use trending_bot::json::JsonValue;
use trending_bot::repo::Repo;

fn at<'a>(v: &'a JsonValue, key: &str) -> &'a JsonValue {
    v.get(key).unwrap_or_else(|| panic!("no member {}", key))
}

fn text(v: &JsonValue) -> &str {
    v.as_str().unwrap()
}

fn elements(card: &JsonValue) -> &Vec<JsonValue> {
    at(at(card, "card"), "elements").as_array().unwrap()
}

fn make_repo(name: &str) -> Repo {
    Repo {
        name: name.to_string(),
        url: format!("https://github.com/{}", name),
        description: Some("A test repo description.".into()),
        language: Some("Rust".into()),
        stars_total: 12345,
        stars_today: 567,
    }
}

#[test]
fn test_full_card_structure() {
    let repos = vec![make_repo("owner/repo-a"), make_repo("owner/repo-b")];
    let card = format_card(&repos, CardVariant::Full);

    assert_eq!(text(at(&card, "msg_type")), "interactive");
    assert!(at(&card, "card").as_object().is_some());

    assert_eq!(text(at(at(at(&card, "card"), "header"), "template")), "blue");
    let title = text(at(at(at(at(&card, "card"), "header"), "title"), "content"));
    assert!(title.starts_with("🔥 GitHub 今日热门"));

    let elems = elements(&card);
    assert_eq!(elems.len(), 4);

    assert_eq!(text(at(&elems[0], "tag")), "div");
    let t = text(at(at(&elems[0], "text"), "content"));
    assert!(t.contains("owner/repo-a"));
    assert!(t.contains("12345"));

    assert_eq!(text(at(&elems[1], "tag")), "hr");

    let last = elems.last().unwrap();
    assert_eq!(text(at(last, "tag")), "note");
}

#[test]
fn test_partial_card_has_new_badge() {
    let repos = vec![make_repo("new/project")];
    let card = format_card(&repos, CardVariant::Partial);

    assert_eq!(text(at(at(at(&card, "card"), "header"), "template")), "blue");
    let title = text(at(at(at(at(&card, "card"), "header"), "title"), "content"));
    assert!(title.contains("更新"));

    let content = text(at(at(&elements(&card)[0], "text"), "content"));
    assert!(content.contains("🆕"));
}

#[test]
fn test_stale_card_has_grey_template() {
    let repos: Vec<Repo> = vec![];
    let card = format_card(&repos, CardVariant::Stale);

    assert_eq!(text(at(at(at(&card, "card"), "header"), "template")), "grey");
    let title = text(at(at(at(at(&card, "card"), "header"), "title"), "content"));
    assert!(title.contains("📌"));

    let t = text(at(at(&elements(&card)[0], "text"), "content"));
    assert!(t.contains("无新项目上榜"));
}

#[test]
fn test_card_has_msg_type() {
    let repos = vec![make_repo("a/b"), make_repo("c/d")];
    let full = format_card(&repos, CardVariant::Full);
    assert_eq!(text(at(&full, "msg_type")), "interactive");

    let partial = format_card(&repos, CardVariant::Partial);
    assert_eq!(text(at(&partial, "msg_type")), "interactive");

    let stale = format_card(&[], CardVariant::Stale);
    assert_eq!(text(at(&stale, "msg_type")), "interactive");
}

#[test]
fn test_empty_repos_full_card_still_has_note() {
    let repos: Vec<Repo> = vec![];
    let card = format_card(&repos, CardVariant::Full);
    let elems = elements(&card);
    assert_eq!(elems.len(), 1);
    assert_eq!(text(at(&elems[0], "tag")), "note");
}

#[test]
fn test_repo_with_no_description() {
    let mut repo = make_repo("no/desc");
    repo.description = None;
    let repos = vec![repo];
    let card = format_card(&repos, CardVariant::Full);
    let content = text(at(at(&elements(&card)[0], "text"), "content"));
    assert!(content.contains("No description"));
}

#[test]
fn test_repo_with_no_language() {
    let mut repo = make_repo("no/lang");
    repo.language = None;
    let repos = vec![repo];
    let card = format_card(&repos, CardVariant::Full);
    let content = text(at(at(&elements(&card)[0], "text"), "content"));
    assert!(content.contains("stars"));
}

#[test]
fn test_note_contains_date() {
    let repo = make_repo("a/b");
    let card = format_card(&[repo], CardVariant::Full);
    let note = elements(&card).last().unwrap();
    let note_text = text(at(&at(note, "elements").as_array().unwrap()[0], "content"));
    assert!(note_text.contains("数据来源: GitHub Trending"));
}

#[test]
fn card_texts_for_a_given_day() {
    let repos = vec![make_repo("a/b"), make_repo("c/d")];
    let card = format_card_for_date(&repos, CardVariant::Full, "2026-07-06");
    let title = text(at(at(at(at(&card, "card"), "header"), "title"), "content"));
    assert_eq!(title, "🔥 GitHub 今日热门 (2026-07-06)");
    let elems = elements(&card);
    assert_eq!(elems.len(), 4);
    assert_eq!(
        text(at(at(&elems[2], "text"), "content")),
        "**#2 [c/d](https://github.com/c/d)**\n⭐ 12345 stars · Rust\n📈 +567 stars today\n\nA test repo description."
    );
    assert_eq!(text(at(at(&elems[2], "text"), "tag")), "lark_md");
    let note = &at(&elems[3], "elements").as_array().unwrap()[0];
    assert_eq!(text(at(note, "content")), "数据来源: GitHub Trending · 2026-07-06");
    assert_eq!(text(at(note, "tag")), "plain_text");

    let partial = format_card_for_date(&repos[..1], CardVariant::Partial, "2026-07-06");
    assert_eq!(
        text(at(at(&elements(&partial)[0], "text"), "content")),
        "**🆕 #1 [a/b](https://github.com/a/b)**\n⭐ 12345 stars · Rust\n📈 +567 stars today\n\nA test repo description."
    );
    assert_eq!(elements(&partial).len(), 2);

    let stale = format_card_for_date(&[], CardVariant::Stale, "2026-07-06");
    assert_eq!(
        text(at(at(&elements(&stale)[0], "text"), "content")),
        "今日热门与昨日相同，无新项目上榜。\n\n上次更新: 2026-07-06"
    );
    assert_eq!(text(at(at(at(at(&stale, "card"), "header"), "title"), "content")), "📌 GitHub 今日热门");
}

#[test]
fn card_for_today_names_today() {
    let d = today();
    assert_eq!(d.len(), 10);
    assert_eq!(&d[4..5], "-");
    assert_eq!(&d[7..8], "-");
    let card = format_card(&[make_repo("a/b")], CardVariant::Full);
    let title = text(at(at(at(at(&card, "card"), "header"), "title"), "content"));
    assert!(title.starts_with("🔥 GitHub 今日热门 ("));
    assert!(title.contains(&d[0..4]));
    let note = elements(&card).last().unwrap();
    let note_text = text(at(&at(note, "elements").as_array().unwrap()[0], "content"));
    assert!(note_text.contains(&d[0..4]));
}
