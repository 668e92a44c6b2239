//! Sources of trending entries, and the reading of the GitHub Trending page.
use vstd::prelude::*;
use crate::html::{html_query, match_view, query_view, spec_html_query, ElementView, HtmlMatch, MatchView};
use crate::item::{ItemModel, TrendingItem};
use crate::repo::{parse_star_count, remove_char, remove_char_chars, star_count_spec, Repo, RepoModel};
use crate::text::{
    chars_of, is_digit, join, join_chars, parse_uint, parse_uint_chars, push_all, push_str,
    split_chars, split_on, string_of, strip_prefix_all, strip_prefix_all_chars, trim, trim_chars,
    views, words, words_of,
};
use crate::fetcher::strings_chars;

verus! {

/// Why a source could not deliver its entries.
#[derive(Debug)]
pub struct SourceError {
    pub message: String,
}

/// A source of trending entries.
pub trait TrendingSource {
    /// The source's name, as entries and the cache record it.
    fn source_name(&self) -> &'static str;

    /// Up to `count` entries of the source.
    fn fetch(&self, count: usize) -> Result<Vec<TrendingItem>, SourceError>;
}

/// Why the GitHub Trending page could not be read.
#[derive(Debug, Clone, Copy, PartialEq, Eq, Structural)]
pub enum TrendingPageError {
    /// A CSS selector did not parse.
    InvalidSelector,
    /// No repository was found on the page.
    NoRepos,
}

impl TrendingPageError {
    /// The message shown for this error.
    pub fn message(&self) -> (r: String)
        ensures
            *self == TrendingPageError::InvalidSelector ==> r@ == "CSS 选择器解析失败"@,
            *self == TrendingPageError::NoRepos ==> r@
                == "未从 Trending 页面解析到任何项目，页面结构可能已变更"@,
    {
        match self {
            TrendingPageError::InvalidSelector => string_of(&chars_of("CSS 选择器解析失败")),
            TrendingPageError::NoRepos => string_of(
                &chars_of("未从 Trending 页面解析到任何项目，页面结构可能已变更"),
            ),
        }
    }
}

// ------------------------------------------------------------------
// One row of the page
// ------------------------------------------------------------------

/// The `i`-th field of a match (`None` past the end).
pub open spec fn field_of(m: MatchView, i: int) -> Option<ElementView> {
    if 0 <= i < m.1.len() {
        m.1[i]
    } else {
        None
    }
}

/// The concatenated text of the `i`-th field of a match.
pub open spec fn field_text(m: MatchView, i: int) -> Option<Seq<char>> {
    match field_of(m, i) {
        Some(e) => Some(join(e.0, seq![])),
        None => None,
    }
}

/// A text trimmed, or nothing when it is empty once trimmed.
pub open spec fn trimmed_non_empty(t: Option<Seq<char>>) -> Option<Seq<char>> {
    match t {
        Some(s) => if trim(s).len() > 0 {
            Some(trim(s))
        } else {
            None
        },
        None => None,
    }
}

/// The characters a total star count is read from.
pub open spec fn is_star_char(c: char) -> bool {
    is_digit(c) || c == ',' || c == '.' || c == 'k' || c == 'm' || c == 'K' || c == 'M'
}

/// The star characters of `s`, in order.
pub open spec fn star_chars(s: Seq<char>) -> Seq<char>
    decreases s.len(),
{
    if s.len() == 0 {
        s
    } else if is_star_char(s.last()) {
        star_chars(s.drop_last()).push(s.last())
    } else {
        star_chars(s.drop_last())
    }
}

/// The first word that starts with an ASCII digit.
pub open spec fn first_digit_word(ws: Seq<Seq<char>>) -> Option<Seq<char>>
    decreases ws.len(),
{
    if ws.len() == 0 {
        None
    } else if ws[0].len() > 0 && is_digit(ws[0][0]) {
        Some(ws[0])
    } else {
        first_digit_word(ws.drop_first())
    }
}

/// Today's stars from a text like `2,804 stars today`: its first word that
/// starts with a digit, without commas, read as a `u64`.
pub open spec fn today_stars(t: Seq<char>) -> Option<u64> {
    match first_digit_word(words(t)) {
        Some(w) => match parse_uint(remove_char(w, ','), u64::MAX as nat) {
            Some(n) => Some(n as u64),
            None => None,
        },
        None => None,
    }
}

/// The repository of one row of the page, from its fields: the link (with its
/// `href`), the description, the language, the total stars and today's stars.
/// A row without a link or `href` gives none.
pub open spec fn repo_of_match(m: MatchView) -> Option<RepoModel> {
    match field_of(m, 0) {
        Some(link) => match link.1 {
            Some(href) => Some(
                RepoModel {
                    name: join(split_on(strip_prefix_all(href, "/"@), '/'), "/"@),
                    url: "https://github.com"@ + href,
                    description: trimmed_non_empty(field_text(m, 1)),
                    language: trimmed_non_empty(field_text(m, 2)),
                    stars_total: match field_text(m, 3) {
                        Some(t) => match star_count_spec(star_chars(t)) {
                            Some(n) => n,
                            None => 0,
                        },
                        None => 0,
                    },
                    stars_today: match field_text(m, 4) {
                        Some(t) => match today_stars(t) {
                            Some(n) => n,
                            None => 0,
                        },
                        None => 0,
                    },
                },
            ),
            None => None,
        },
        None => None,
    }
}

/// The concatenated text of field `i` of `m`.
fn field_text_of(m: &HtmlMatch, i: usize) -> (r: Option<Vec<char>>)
    ensures
        r matches Some(t) ==> field_text(match_view(*m), i as int) == Some(t@),
        r is None ==> field_text(match_view(*m), i as int) is None,
{
    if i < m.fields.len() {
        match &m.fields[i] {
            Some(e) => {
                let pieces = strings_chars(&e.text);
                let none: Vec<char> = Vec::new();
                Some(join_chars(&pieces, &none))
            },
            None => None,
        }
    } else {
        None
    }
}

/// A text trimmed, or nothing when it is empty once trimmed.
fn trimmed_non_empty_of(t: Option<Vec<char>>) -> (r: Option<String>)
    ensures
        match r {
            Some(s) => trimmed_non_empty(match t {
                Some(x) => Some(x@),
                None => None,
            }) == Some(s@),
            None => trimmed_non_empty(match t {
                Some(x) => Some(x@),
                None => None,
            }) is None,
        },
{
    match t {
        Some(x) => {
            let tr = trim_chars(&x);
            if tr.len() > 0 {
                Some(string_of(&tr))
            } else {
                None
            }
        },
        None => None,
    }
}

/// The star characters of `v`.
fn star_chars_of(v: &Vec<char>) -> (r: Vec<char>)
    ensures
        r@ == star_chars(v@),
{
    let mut r: Vec<char> = Vec::new();
    let mut i: usize = 0;
    while i < v.len()
        invariant
            i <= v.len(),
            r@ == star_chars(v@.take(i as int)),
        decreases v.len() - i,
    {
        proof {
            assert(v@.take(i + 1).drop_last() =~= v@.take(i as int));
            assert(v@.take(i + 1).last() == v@[i as int]);
        }
        let c = v[i];
        if ('0' <= c && c <= '9') || c == ',' || c == '.' || c == 'k' || c == 'm' || c == 'K' || c
            == 'M' {
            r.push(c);
        }
        i = i + 1;
    }
    assert(v@.take(v.len() as int) =~= v@);
    r
}

/// Today's stars from a text like `2,804 stars today`.
fn today_stars_of(t: &Vec<char>) -> (r: Option<u64>)
    ensures
        r == today_stars(t@),
{
    let ws = words_of(t);
    let mut i: usize = 0;
    assert(views(ws@).skip(0) =~= views(ws@));
    while i < ws.len()
        invariant
            i <= ws.len(),
            views(ws@) == words(t@),
            first_digit_word(views(ws@)) == first_digit_word(views(ws@).skip(i as int)),
        decreases ws.len() - i,
    {
        proof {
            let rest = views(ws@).skip(i as int);
            assert(rest.drop_first() =~= views(ws@).skip(i + 1));
            assert(rest[0] == ws@[i as int]@);
        }
        if ws[i].len() > 0 && '0' <= ws[i][0] && ws[i][0] <= '9' {
            let w = remove_char_chars(&ws[i], ',');
            assert(first_digit_word(views(ws@).skip(i as int)) == Some(ws@[i as int]@));
            let n = parse_uint_chars(&w, u64::MAX);
            proof {
                match n {
                    Some(x) => {
                        assert(parse_uint(remove_char(ws@[i as int]@, ','), u64::MAX as nat) == Some(
                            x as nat,
                        ));
                    },
                    None => {},
                }
            }
            return n;
        }
        i = i + 1;
    }
    proof {
        assert(views(ws@).skip(ws.len() as int).len() == 0);
    }
    None
}

/// The repository of one row of the GitHub Trending page.
pub fn repo_from_match(m: &HtmlMatch) -> (r: Option<Repo>)
    ensures
        r matches Some(x) ==> repo_of_match(match_view(*m)) == Some(x@),
        r is None ==> repo_of_match(match_view(*m)) is None,
{
    let ghost mv = match_view(*m);
    if m.fields.len() == 0 {
        return None;
    }
    let href: &String = match &m.fields[0] {
        Some(link) => match &link.attr {
            Some(h) => h,
            None => {
                return None;
            },
        },
        None => {
            return None;
        },
    };
    let hv = chars_of(href.as_str());
    let slash = chars_of("/");
    let stripped = strip_prefix_all_chars(&hv, &slash);
    let pieces = split_chars(&stripped, '/');
    let name_chars = join_chars(&pieces, &slash);
    let mut url_chars = chars_of("https://github.com");
    push_all(&mut url_chars, &hv);
    let description = trimmed_non_empty_of(field_text_of(m, 1));
    let language = trimmed_non_empty_of(field_text_of(m, 2));
    let stars_total: u64 = match field_text_of(m, 3) {
        Some(t) => {
            let st = star_chars_of(&t);
            let sts = string_of(&st);
            match parse_star_count(sts.as_str()) {
                Some(n) => n,
                None => 0,
            }
        },
        None => 0,
    };
    let stars_today: u64 = match field_text_of(m, 4) {
        Some(t) => match today_stars_of(&t) {
            Some(n) => n,
            None => 0,
        },
        None => 0,
    };
    let r = Repo {
        name: string_of(&name_chars),
        url: string_of(&url_chars),
        description,
        language,
        stars_total,
        stars_today,
    };
    proof {
        assert(field_of(mv, 0) == Some(crate::html::element_view(m.fields@[0]->0)));
    }
    Some(r)
}

// ------------------------------------------------------------------
// The page
// ------------------------------------------------------------------

/// The repositories of the rows that have one, in page order.
pub open spec fn repos_of_matches(ms: Seq<MatchView>) -> Seq<RepoModel>
    decreases ms.len(),
{
    if ms.len() == 0 {
        seq![]
    } else {
        match repo_of_match(ms.last()) {
            Some(r) => repos_of_matches(ms.drop_last()).push(r),
            None => repos_of_matches(ms.drop_last()),
        }
    }
}

/// The first `n` elements of `s` (all of them when there are fewer).
pub open spec fn first_n<A>(s: Seq<A>, n: nat) -> Seq<A> {
    if s.len() <= n {
        s
    } else {
        s.take(n as int)
    }
}

/// The plain values of a list of repositories.
pub open spec fn repos_view(rs: Seq<Repo>) -> Seq<RepoModel> {
    rs.map_values(|r: Repo| r@)
}

proof fn lemma_repos_prefix(ms: Seq<MatchView>, i: int, j: int)
    requires
        0 <= i <= j <= ms.len(),
    ensures
        repos_of_matches(ms.take(i)).len() <= repos_of_matches(ms.take(j)).len(),
        repos_of_matches(ms.take(j)).take(repos_of_matches(ms.take(i)).len() as int)
            == repos_of_matches(ms.take(i)),
    decreases j - i,
{
    if i == j {
        assert(repos_of_matches(ms.take(j)).take(repos_of_matches(ms.take(j)).len() as int)
            =~= repos_of_matches(ms.take(j)));
    } else {
        lemma_repos_prefix(ms, i, j - 1);
        assert(ms.take(j).drop_last() =~= ms.take(j - 1));
        let a = repos_of_matches(ms.take(i));
        let b = repos_of_matches(ms.take(j - 1));
        let c = repos_of_matches(ms.take(j));
        assert(c.take(a.len() as int) =~= b.take(a.len() as int));
    }
}

/// The repositories of the first rows that have one, at most `count` of them.
pub fn repos_from_matches(ms: &Vec<HtmlMatch>, count: usize) -> (r: Vec<Repo>)
    ensures
        repos_view(r@) == first_n(
            repos_of_matches(ms@.map_values(|m: HtmlMatch| match_view(m))),
            count as nat,
        ),
{
    let ghost mvs = ms@.map_values(|m: HtmlMatch| match_view(m));
    let mut r: Vec<Repo> = Vec::new();
    let mut i: usize = 0;
    while i < ms.len() && r.len() < count
        invariant
            i <= ms.len(),
            r.len() <= count,
            mvs == ms@.map_values(|m: HtmlMatch| match_view(m)),
            repos_view(r@) == repos_of_matches(mvs.take(i as int)),
        decreases ms.len() - i,
    {
        proof {
            assert(mvs.take(i + 1).drop_last() =~= mvs.take(i as int));
            assert(mvs.take(i + 1).last() == match_view(ms@[i as int]));
        }
        match repo_from_match(&ms[i]) {
            Some(x) => {
                let ghost before = repos_view(r@);
                r.push(x);
                assert(repos_view(r@) =~= before.push(x@));
            },
            None => {},
        }
        i = i + 1;
    }
    proof {
        lemma_repos_prefix(mvs, i as int, ms.len() as int);
        assert(mvs.take(ms.len() as int) =~= mvs);
        if r.len() < count {
            assert(i == ms.len());
        }
    }
    r
}

/// The CSS selector of one repository row of the page.
pub open spec fn row_selector() -> Seq<char> {
    "article.Box-row"@
}

/// The CSS selectors of a row's fields: link, description, language, total
/// stars, today's stars.
pub open spec fn field_selectors() -> Seq<Seq<char>> {
    seq![
        "h2.h3.lh-condensed a"@,
        "p.col-9.color-fg-muted"@,
        "span[itemprop='programmingLanguage']"@,
        "a[href$='/stargazers']"@,
        "span.d-inline-block.float-sm-right"@,
    ]
}

/// What reading the page gives for the rows `html_query` found.
pub open spec fn trending_result(q: Option<Seq<MatchView>>, count: nat) -> Result<
    Seq<RepoModel>,
    TrendingPageError,
> {
    match q {
        None => Err(TrendingPageError::InvalidSelector),
        Some(ms) => {
            let rs = first_n(repos_of_matches(ms), count);
            if rs.len() == 0 {
                Err(TrendingPageError::NoRepos)
            } else {
                Ok(rs)
            }
        },
    }
}

/// The plain value of the page reading's result.
pub open spec fn trending_view(r: Result<Vec<Repo>, TrendingPageError>) -> Result<
    Seq<RepoModel>,
    TrendingPageError,
> {
    match r {
        Ok(v) => Ok(repos_view(v@)),
        Err(e) => Err(e),
    }
}

/// Reads up to `count` repositories from the rows of the GitHub Trending page
/// that `html_query` found; none found is an error.
pub fn repos_from_rows(q: Option<Vec<HtmlMatch>>, count: usize) -> (r: Result<
    Vec<Repo>,
    TrendingPageError,
>)
    ensures
        trending_view(r) == trending_result(query_view(q), count as nat),
{
    match q {
        None => Err(TrendingPageError::InvalidSelector),
        Some(ms) => {
            let rs = repos_from_matches(&ms, count);
            if rs.len() == 0 {
                Err(TrendingPageError::NoRepos)
            } else {
                Ok(rs)
            }
        },
    }
}

/// Parses the GitHub Trending page: the first `count` rows that have a link
/// give the repositories; none is an error.
pub fn parse_from_html(html: &str, count: usize) -> (r: Result<Vec<Repo>, TrendingPageError>)
    ensures
        trending_view(r) == trending_result(
            spec_html_query(html@, row_selector(), field_selectors(), "href"@),
            count as nat,
        ),
{
    let mut fields: Vec<String> = Vec::new();
    fields.push(string_of(&chars_of("h2.h3.lh-condensed a")));
    fields.push(string_of(&chars_of("p.col-9.color-fg-muted")));
    fields.push(string_of(&chars_of("span[itemprop='programmingLanguage']")));
    fields.push(string_of(&chars_of("a[href$='/stargazers']")));
    fields.push(string_of(&chars_of("span.d-inline-block.float-sm-right")));
    assert(fields@.map_values(|f: String| f@) =~= field_selectors());
    let q = html_query(html, "article.Box-row", &fields, "href");
    repos_from_rows(q, count)
}

// ------------------------------------------------------------------
// Entries of the repositories
// ------------------------------------------------------------------

/// The entry of a repository: id and title are its name, the score its stars
/// today when there are any.
pub open spec fn item_of_repo(r: RepoModel, source: Seq<char>) -> ItemModel {
    ItemModel {
        source,
        id: r.name,
        title: r.name,
        url: r.url,
        score: if r.stars_today > 0 {
            Some(r.stars_today)
        } else {
            None
        },
        external_content: None,
        summary: None,
    }
}

/// The entries of a list of repositories, for the source `source_name`.
pub fn repos_to_items(repos: &Vec<Repo>, source_name: &str) -> (r: Vec<TrendingItem>)
    ensures
        r.len() == repos.len(),
        forall|i: int| 0 <= i < r.len() ==> #[trigger] r[i]@ == item_of_repo(repos[i]@, source_name@),
{
    let mut r: Vec<TrendingItem> = Vec::new();
    let mut i: usize = 0;
    while i < repos.len()
        invariant
            i <= repos.len(),
            r.len() == i,
            forall|j: int| 0 <= j < i ==> #[trigger] r[j]@ == item_of_repo(repos[j]@, source_name@),
        decreases repos.len() - i,
    {
        let rp = &repos[i];
        let score = if rp.stars_today > 0 {
            Some(rp.stars_today)
        } else {
            None
        };
        r.push(
            TrendingItem {
                source: string_of(&chars_of(source_name)),
                id: rp.name.clone(),
                title: rp.name.clone(),
                url: rp.url.clone(),
                score,
                external_content: None,
                summary: None,
            },
        );
        i = i + 1;
    }
    r
}

} // verus!
