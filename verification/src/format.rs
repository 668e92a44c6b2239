//! The Feishu interactive card that announces the GitHub Trending
//! repositories of the day.
use vstd::prelude::*;
use crate::clock::{is_day_text, today};
use crate::json::{members_view, values_view, JsonValue, JsonView};
use crate::repo::{Repo, RepoModel};
use crate::source::repos_view;
use crate::text::{chars_of, dec_chars, dec_digits, push_all, push_str, string_of};

verus! {

/// Which card to send, by how much of the list is new.
#[derive(Debug, Clone, Copy, PartialEq, Eq, Structural)]
pub enum CardVariant {
    /// Every repository is new: the full list.
    Full,
    /// Some repositories are new: those, each marked new.
    Partial,
    /// Nothing is new: a short notice.
    Stale,
}

/// A `{tag, content}` block.
pub open spec fn text_block_view(tag: Seq<char>, content: Seq<char>) -> JsonView {
    JsonView::Obj(seq![("tag"@, JsonView::Str(tag)), ("content"@, JsonView::Str(content))])
}

/// A `div` element with Markdown text.
pub open spec fn div_view(content: Seq<char>) -> JsonView {
    JsonView::Obj(seq![("tag"@, JsonView::Str("div"@)), ("text"@, text_block_view("lark_md"@, content))])
}

/// A horizontal rule.
pub open spec fn hr_view() -> JsonView {
    JsonView::Obj(seq![("tag"@, JsonView::Str("hr"@))])
}

/// The footnote naming the source and the day.
pub open spec fn note_view(date: Seq<char>) -> JsonView {
    JsonView::Obj(
        seq![
            ("tag"@, JsonView::Str("note"@)),
            (
                "elements"@,
                JsonView::Arr(
                    seq![text_block_view("plain_text"@, "数据来源: GitHub Trending · "@ + date)],
                ),
            ),
        ],
    )
}

/// The Markdown text of the repository at position `i`: its rank, name and
/// link, total stars and language, today's stars, and description; marked
/// new when `badge`.
pub open spec fn repo_text(i: nat, r: RepoModel, badge: bool) -> Seq<char> {
    let lang = match r.language {
        Some(l) => l,
        None => seq![],
    };
    let desc = match r.description {
        Some(d) => d,
        None => "No description"@,
    };
    "**"@ + (if badge {
        "🆕 "@
    } else {
        seq![]
    }) + "#"@ + dec_digits(i + 1) + " ["@ + r.name + "]("@ + r.url + ")**\n⭐ "@ + dec_digits(
        r.stars_total as nat,
    ) + " stars · "@ + lang + "\n📈 +"@ + dec_digits(r.stars_today as nat) + " stars today\n\n"@
        + desc
}

/// The elements of the first `k` repositories: each one's text, with a rule
/// between consecutive ones.
pub open spec fn repo_list(repos: Seq<RepoModel>, badge: bool, k: nat) -> Seq<JsonView>
    decreases k,
{
    if k == 0 {
        seq![]
    } else {
        let p = repo_list(repos, badge, (k - 1) as nat).push(
            div_view(repo_text((k - 1) as nat, repos[k - 1], badge)),
        );
        if k < repos.len() {
            p.push(hr_view())
        } else {
            p
        }
    }
}

/// The elements of a list card: the repositories, then the footnote.
pub open spec fn repo_elements(repos: Seq<RepoModel>, badge: bool, date: Seq<char>) -> Seq<JsonView> {
    repo_list(repos, badge, repos.len()).push(note_view(date))
}

/// An interactive card with a title, a header colour and elements.
pub open spec fn card_view(title: Seq<char>, template: Seq<char>, elements: Seq<JsonView>) -> JsonView {
    JsonView::Obj(
        seq![
            ("msg_type"@, JsonView::Str("interactive"@)),
            (
                "card"@,
                JsonView::Obj(
                    seq![
                        (
                            "header"@,
                            JsonView::Obj(
                                seq![
                                    ("title"@, text_block_view("plain_text"@, title)),
                                    ("template"@, JsonView::Str(template)),
                                ],
                            ),
                        ),
                        ("elements"@, JsonView::Arr(elements)),
                    ],
                ),
            ),
        ],
    )
}

/// The card of a variant on day `date`: the full list under a blue header
/// with the day; the new ones, marked, under a blue "update" header; or a
/// grey notice that nothing changed.
pub open spec fn card_for(repos: Seq<RepoModel>, variant: CardVariant, date: Seq<char>) -> JsonView {
    match variant {
        CardVariant::Full => card_view(
            "🔥 GitHub 今日热门 ("@ + date + ")"@,
            "blue"@,
            repo_elements(repos, false, date),
        ),
        CardVariant::Partial => card_view(
            "🔥 GitHub 今日热门 · 更新"@,
            "blue"@,
            repo_elements(repos, true, date),
        ),
        CardVariant::Stale => card_view(
            "📌 GitHub 今日热门"@,
            "grey"@,
            seq![div_view("今日热门与昨日相同，无新项目上榜。\n\n上次更新: "@ + date)],
        ),
    }
}

/// The element after the `i`-th repository's text in a list of elements.
pub open spec fn rule_at(l: Seq<JsonView>, i: int) -> JsonView {
    l[2 * i + 1]
}

/// The `i`-th repository's text in a list of elements.
pub open spec fn text_at(l: Seq<JsonView>, i: int) -> JsonView {
    l[2 * i]
}

/// The elements of the first `k` repositories: one text per repository at
/// even positions, a rule after each one that has a successor in the list.
proof fn lemma_repo_list(repos: Seq<RepoModel>, badge: bool, k: nat)
    requires
        k <= repos.len(),
    ensures
        repo_list(repos, badge, k).len() == (if k == 0 {
            0int
        } else if k < repos.len() {
            2 * k as int
        } else {
            2 * k as int - 1
        }),
        forall|i: int|
            0 <= i < k ==> #[trigger] text_at(repo_list(repos, badge, k), i) == div_view(
                repo_text(i as nat, repos[i], badge),
            ),
        forall|i: int|
            0 <= i < k && i + 1 < repos.len() ==> #[trigger] rule_at(repo_list(repos, badge, k), i)
                == hr_view(),
    decreases k,
{
    if k > 0 {
        lemma_repo_list(repos, badge, (k - 1) as nat);
        let prev = repo_list(repos, badge, (k - 1) as nat);
        let cur = repo_list(repos, badge, k);
        let d = div_view(repo_text((k - 1) as nat, repos[k - 1], badge));
        assert forall|i: int| 0 <= i < k implies #[trigger] text_at(cur, i) == div_view(
            repo_text(i as nat, repos[i], badge),
        ) by {
            if i < k - 1 {
                assert(text_at(prev, i) == div_view(repo_text(i as nat, repos[i], badge)));
                assert(cur[2 * i] == prev[2 * i]);
            }
        }
        assert forall|i: int| 0 <= i < k && i + 1 < repos.len() implies #[trigger] rule_at(cur, i)
            == hr_view() by {
            if i < k - 1 {
                assert(rule_at(prev, i) == hr_view());
                assert(cur[2 * i + 1] == prev[2 * i + 1]);
            } else {
                assert(cur == prev.push(d).push(hr_view()));
                assert(2 * i + 1 == cur.len() - 1);
            }
        }
    }
}

/// A list card holds, for `n` repositories, `n` texts in order with a rule
/// between consecutive ones, then the footnote: `2n` elements, or the
/// footnote alone when the list is empty.
pub proof fn lemma_list_card_elements(repos: Seq<RepoModel>, badge: bool, date: Seq<char>)
    ensures
        repo_elements(repos, badge, date).len() == (if repos.len() == 0 {
            1int
        } else {
            2 * repos.len() as int
        }),
        repo_elements(repos, badge, date).last() == note_view(date),
        forall|i: int|
            0 <= i < repos.len() ==> #[trigger] text_at(repo_elements(repos, badge, date), i)
                == div_view(repo_text(i as nat, repos[i], badge)),
        forall|i: int|
            0 <= i && i + 1 < repos.len() ==> #[trigger] rule_at(repo_elements(repos, badge, date), i)
                == hr_view(),
{
    lemma_repo_list(repos, badge, repos.len());
    let l = repo_list(repos, badge, repos.len());
    let e = repo_elements(repos, badge, date);
    assert forall|i: int| 0 <= i < repos.len() implies #[trigger] text_at(e, i) == div_view(
        repo_text(i as nat, repos[i], badge),
    ) by {
        assert(text_at(l, i) == div_view(repo_text(i as nat, repos[i], badge)));
        assert(e[2 * i] == l[2 * i]);
    }
    assert forall|i: int| 0 <= i && i + 1 < repos.len() implies #[trigger] rule_at(e, i) == hr_view() by {
        assert(rule_at(l, i) == hr_view());
        assert(e[2 * i + 1] == l[2 * i + 1]);
    }
}

/// A `{tag, content}` block.
fn text_block(tag: &str, content: String) -> (r: JsonValue)
    ensures
        r@ == text_block_view(tag@, content@),
{
    let mut m: Vec<(String, JsonValue)> = Vec::new();
    m.push(("tag".to_owned(), JsonValue::text(tag)));
    m.push(("content".to_owned(), JsonValue::String(content)));
    assert(members_view(m@) =~= seq![("tag"@, JsonView::Str(tag@)), ("content"@, JsonView::Str(content@))]);
    JsonValue::object(m)
}

/// A `div` element with Markdown text.
fn div_element(content: String) -> (r: JsonValue)
    ensures
        r@ == div_view(content@),
{
    let mut m: Vec<(String, JsonValue)> = Vec::new();
    m.push(("tag".to_owned(), JsonValue::text("div")));
    let t = text_block("lark_md", content);
    m.push(("text".to_owned(), t));
    assert(members_view(m@) =~= seq![("tag"@, JsonView::Str("div"@)), ("text"@, text_block_view("lark_md"@, content@))]);
    JsonValue::object(m)
}

/// A horizontal rule.
fn hr_element() -> (r: JsonValue)
    ensures
        r@ == hr_view(),
{
    let mut m: Vec<(String, JsonValue)> = Vec::new();
    m.push(("tag".to_owned(), JsonValue::text("hr")));
    assert(members_view(m@) =~= seq![("tag"@, JsonView::Str("hr"@))]);
    JsonValue::object(m)
}

/// The footnote naming the source and the day.
fn note_element(date: &str) -> (r: JsonValue)
    ensures
        r@ == note_view(date@),
{
    let mut v = chars_of("数据来源: GitHub Trending · ");
    push_str(&mut v, date);
    let t = text_block("plain_text", string_of(&v));
    let mut items: Vec<JsonValue> = Vec::new();
    items.push(t);
    assert(values_view(items@) =~= seq![text_block_view("plain_text"@, "数据来源: GitHub Trending · "@ + date@)]);
    let arr = JsonValue::array(items);
    let mut m: Vec<(String, JsonValue)> = Vec::new();
    m.push(("tag".to_owned(), JsonValue::text("note")));
    m.push(("elements".to_owned(), arr));
    assert(members_view(m@) =~= seq![
        ("tag"@, JsonView::Str("note"@)),
        ("elements"@, JsonView::Arr(seq![text_block_view("plain_text"@, "数据来源: GitHub Trending · "@ + date@)])),
    ]);
    JsonValue::object(m)
}

/// The Markdown text of the repository at position `i`.
fn repo_content(i: usize, r: &Repo, badge: bool) -> (s: String)
    requires
        i < usize::MAX,
    ensures
        s@ == repo_text(i as nat, r@, badge),
{
    let mut v = chars_of("**");
    if badge {
        push_str(&mut v, "🆕 ");
    }
    push_str(&mut v, "#");
    let rank = dec_chars((i + 1) as u64);
    push_all(&mut v, &rank);
    push_str(&mut v, " [");
    push_str(&mut v, r.name.as_str());
    push_str(&mut v, "](");
    push_str(&mut v, r.url.as_str());
    push_str(&mut v, ")**\n⭐ ");
    let total = dec_chars(r.stars_total);
    push_all(&mut v, &total);
    push_str(&mut v, " stars · ");
    match &r.language {
        Some(l) => push_str(&mut v, l.as_str()),
        None => {},
    }
    push_str(&mut v, "\n📈 +");
    let today_stars = dec_chars(r.stars_today);
    push_all(&mut v, &today_stars);
    push_str(&mut v, " stars today\n\n");
    match &r.description {
        Some(d) => push_str(&mut v, d.as_str()),
        None => push_str(&mut v, "No description"),
    }
    string_of(&v)
}

/// The elements of a list card: each repository's text, a rule between
/// consecutive ones, then the footnote.
fn build_repo_elements(repos: &[Repo], badge: bool, date: &str) -> (r: Vec<JsonValue>)
    ensures
        values_view(r@) == repo_elements(repos_view(repos@), badge, date@),
{
    let ghost rv = repos_view(repos@);
    let mut elements: Vec<JsonValue> = Vec::new();
    let mut i: usize = 0;
    while i < repos.len()
        invariant
            i <= repos.len(),
            rv == repos_view(repos@),
            values_view(elements@) == repo_list(rv, badge, i as nat),
        decreases repos.len() - i,
    {
        let content = repo_content(i, &repos[i], badge);
        let ghost before = values_view(elements@);
        elements.push(div_element(content));
        assert(values_view(elements@) =~= before.push(div_view(repo_text(i as nat, rv[i as int], badge))));
        if i + 1 < repos.len() {
            let ghost mid = values_view(elements@);
            elements.push(hr_element());
            assert(values_view(elements@) =~= mid.push(hr_view()));
        }
        i = i + 1;
    }
    let ghost before = values_view(elements@);
    elements.push(note_element(date));
    assert(values_view(elements@) =~= before.push(note_view(date@)));
    elements
}

/// An interactive card with a title, a header colour and elements.
fn build_card(title: String, template: &str, elements: Vec<JsonValue>) -> (r: JsonValue)
    ensures
        r@ == card_view(title@, template@, values_view(elements@)),
{
    let t = text_block("plain_text", title);
    let mut header: Vec<(String, JsonValue)> = Vec::new();
    header.push(("title".to_owned(), t));
    header.push(("template".to_owned(), JsonValue::text(template)));
    assert(members_view(header@) =~= seq![
        ("title"@, text_block_view("plain_text"@, title@)),
        ("template"@, JsonView::Str(template@)),
    ]);
    let header_value = JsonValue::object(header);
    let ghost ev = values_view(elements@);
    let elements_value = JsonValue::array(elements);
    let mut card: Vec<(String, JsonValue)> = Vec::new();
    card.push(("header".to_owned(), header_value));
    card.push(("elements".to_owned(), elements_value));
    assert(members_view(card@) =~= seq![("header"@, header_value@), ("elements"@, JsonView::Arr(ev))]);
    let card_value = JsonValue::object(card);
    let mut top: Vec<(String, JsonValue)> = Vec::new();
    top.push(("msg_type".to_owned(), JsonValue::text("interactive")));
    top.push(("card".to_owned(), card_value));
    assert(members_view(top@) =~= seq![("msg_type"@, JsonView::Str("interactive"@)), ("card"@, card_value@)]);
    JsonValue::object(top)
}

/// The card of a variant for the day `date`.
pub fn format_card_for_date(repos: &[Repo], variant: CardVariant, date: &str) -> (r: JsonValue)
    ensures
        r@ == card_for(repos_view(repos@), variant, date@),
{
    match variant {
        CardVariant::Full => {
            let elements = build_repo_elements(repos, false, date);
            let mut title = chars_of("🔥 GitHub 今日热门 (");
            push_str(&mut title, date);
            push_str(&mut title, ")");
            build_card(string_of(&title), "blue", elements)
        },
        CardVariant::Partial => {
            let elements = build_repo_elements(repos, true, date);
            build_card(string_of(&chars_of("🔥 GitHub 今日热门 · 更新")), "blue", elements)
        },
        CardVariant::Stale => {
            let mut text = chars_of("今日热门与昨日相同，无新项目上榜。\n\n上次更新: ");
            push_str(&mut text, date);
            let mut elements: Vec<JsonValue> = Vec::new();
            elements.push(div_element(string_of(&text)));
            assert(values_view(elements@) =~= seq![div_view("今日热门与昨日相同，无新项目上榜。\n\n上次更新: "@ + date@)]);
            build_card(string_of(&chars_of("📌 GitHub 今日热门")), "grey", elements)
        },
    }
}

/// The card of a variant for today (local time). Which day it is depends on
/// the clock; the date in the card has the shape `YYYY-MM-DD`.
pub fn format_card(repos: &[Repo], variant: CardVariant) -> (r: JsonValue)
    ensures
        exists|date: Seq<char>| is_day_text(date) && r@ == card_for(repos_view(repos@), variant, date),
{
    let date = today();
    let r = format_card_for_date(repos, variant, date.as_str());
    assert(is_day_text(date@) && r@ == card_for(repos_view(repos@), variant, date@));
    r
}

} // verus!
