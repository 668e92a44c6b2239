//! What the content fetcher decides and computes: the kind of content behind a
//! link, the GitHub API addresses, the text kept of what comes back, and which
//! links of a batch are fetched.
use vstd::prelude::*;
use crate::html::{html_query, query_view, spec_html_query, HtmlMatch, MatchView};
use crate::item::{ContentType, ExternalContent, TrendingItem};
use crate::json::{JsonValue, JsonView};
use crate::text::{
    byte_len, chars_eq, chars_eq_str, chars_of, dec_chars, dec_digits, fitting_prefix_len, join,
    join_chars, longest_fitting_prefix, parse_uint, parse_uint_chars, push_all, push_str,
    slice_chars, split_chars, split_on, string_of, strip_prefix_all, strip_prefix_all_chars, trim,
    trim_chars, views, words, words_of, is_word, lemma_trim_join, lemma_words_are_words,
    lemma_words_of_join,
};

verus! {

// ------------------------------------------------------------------
// URLs
// ------------------------------------------------------------------

/// The URL without its scheme: every leading `https://`, then every leading
/// `http://`, removed.
pub open spec fn url_path(url: Seq<char>) -> Seq<char> {
    strip_prefix_all(strip_prefix_all(url, "https://"@), "http://"@)
}

/// The non-empty elements of `ps`, in order.
pub open spec fn non_empty_parts(ps: Seq<Seq<char>>) -> Seq<Seq<char>>
    decreases ps.len(),
{
    if ps.len() == 0 {
        ps
    } else if ps.last().len() == 0 {
        non_empty_parts(ps.drop_last())
    } else {
        non_empty_parts(ps.drop_last()).push(ps.last())
    }
}

/// The non-empty `/`-separated segments of the URL without its scheme.
pub open spec fn url_segments(url: Seq<char>) -> Seq<Seq<char>> {
    non_empty_parts(split_on(url_path(url), '/'))
}

/// A GitHub repository home page: exactly `github.com/owner/repo`, with or
/// without a trailing slash.
pub open spec fn is_repo_url(url: Seq<char>) -> bool {
    let p = url_segments(url);
    p.len() == 3 && p[0] == "github.com"@ && p[1].len() > 0 && p[2].len() > 0
}

/// A GitHub issue page: `github.com/owner/repo/issues/N` with `N` a `u64`.
pub open spec fn is_issue_url(url: Seq<char>) -> bool {
    let p = url_segments(url);
    &&& p.len() >= 5
    &&& p[0] == "github.com"@
    &&& p[1].len() > 0
    &&& p[2].len() > 0
    &&& p[3] == "issues"@
    &&& parse_uint(p[4], u64::MAX as nat) is Some
}

/// A repository home page is never an issue page, and the other way round:
/// the one has exactly three segments, the other at least five.
pub proof fn lemma_repo_and_issue_pages_differ(url: Seq<char>)
    ensures
        !(is_repo_url(url) && is_issue_url(url)),
{
}

/// The kind of content behind `url`.
pub open spec fn content_type_of(url: Seq<char>) -> ContentType {
    if is_repo_url(url) {
        ContentType::GitHubReadme
    } else if is_issue_url(url) {
        ContentType::GitHubIssue
    } else {
        ContentType::WebArticle
    }
}

/// `owner` and `repo` of a URL starting `github.com/owner/repo` once its scheme
/// is removed (segments may be empty here).
pub open spec fn repo_name_of(url: Seq<char>) -> Option<(Seq<char>, Seq<char>)> {
    let p = split_on(url_path(url), '/');
    if p.len() >= 3 && p[0] == "github.com"@ {
        Some((p[1], p[2]))
    } else {
        None
    }
}

/// The number of an issue page: the segment after `issues`, read as a `u64`.
pub open spec fn issue_number_of(url: Seq<char>) -> Option<u64> {
    let p = url_segments(url);
    if p.len() >= 5 && p[3] == "issues"@ {
        match parse_uint(p[4], u64::MAX as nat) {
            Some(n) => Some(n as u64),
            None => None,
        }
    } else {
        None
    }
}

/// On an issue page the number is always found.
pub proof fn lemma_issue_page_has_number(url: Seq<char>)
    ensures
        is_issue_url(url) ==> issue_number_of(url) is Some,
{
}

/// The URL's characters without its scheme.
fn url_path_chars(url: &str) -> (r: Vec<char>)
    ensures
        r@ == url_path(url@),
{
    let v = chars_of(url);
    let https = chars_of("https://");
    let http = chars_of("http://");
    let a = strip_prefix_all_chars(&v, &https);
    strip_prefix_all_chars(&a, &http)
}

/// The non-empty parts of `ps`.
fn non_empty_parts_of(ps: &Vec<Vec<char>>) -> (r: Vec<Vec<char>>)
    ensures
        views(r@) == non_empty_parts(views(ps@)),
{
    let mut r: Vec<Vec<char>> = Vec::new();
    let mut i: usize = 0;
    while i < ps.len()
        invariant
            i <= ps.len(),
            views(r@) == non_empty_parts(views(ps@).take(i as int)),
        decreases ps.len() - i,
    {
        proof {
            assert(views(ps@).take(i + 1).drop_last() =~= views(ps@).take(i as int));
            assert(views(ps@).take(i + 1).last() == ps@[i as int]@);
        }
        if ps[i].len() > 0 {
            let ghost before = views(r@);
            r.push(slice_chars(&ps[i], 0, ps[i].len()));
            assert(ps@[i as int]@.subrange(0, ps@[i as int]@.len() as int) =~= ps@[i as int]@);
            assert(views(r@) =~= before.push(ps@[i as int]@));
        }
        i = i + 1;
    }
    assert(views(ps@).take(ps.len() as int) =~= views(ps@));
    r
}

/// The non-empty segments of a URL.
fn url_segments_of(url: &str) -> (r: Vec<Vec<char>>)
    ensures
        views(r@) == url_segments(url@),
{
    let p = url_path_chars(url);
    let parts = split_chars(&p, '/');
    non_empty_parts_of(&parts)
}

/// Whether `url` is a GitHub repository home page (`github.com/owner/repo`,
/// with or without a trailing slash; issue, pull request and other sub-pages
/// are not).
pub fn is_github_repo_url(url: &str) -> (r: bool)
    ensures
        r == is_repo_url(url@),
{
    let p = url_segments_of(url);
    proof {
        if p.len() == 3 {
            assert(views(p@)[0] == p@[0]@);
            assert(views(p@)[1] == p@[1]@);
            assert(views(p@)[2] == p@[2]@);
        }
    }
    p.len() == 3 && chars_eq_str(&p[0], "github.com") && p[1].len() > 0 && p[2].len() > 0
}

/// Whether `url` is a GitHub issue page (`github.com/owner/repo/issues/N`).
pub fn is_github_issue_url(url: &str) -> (r: bool)
    ensures
        r == is_issue_url(url@),
{
    let p = url_segments_of(url);
    if p.len() < 5 {
        return false;
    }
    proof {
        assert(views(p@)[0] == p@[0]@);
        assert(views(p@)[1] == p@[1]@);
        assert(views(p@)[2] == p@[2]@);
        assert(views(p@)[3] == p@[3]@);
        assert(views(p@)[4] == p@[4]@);
    }
    chars_eq_str(&p[0], "github.com") && p[1].len() > 0 && p[2].len() > 0 && chars_eq_str(
        &p[3],
        "issues",
    ) && parse_uint_chars(&p[4], u64::MAX).is_some()
}

/// The kind of content behind `url`: a repository home page has a README, an
/// issue page an issue, anything else (pull requests included) is an article.
pub fn detect_content_type(url: &str) -> (r: ContentType)
    ensures
        r == content_type_of(url@),
{
    if is_github_repo_url(url) {
        ContentType::GitHubReadme
    } else if is_github_issue_url(url) {
        ContentType::GitHubIssue
    } else {
        ContentType::WebArticle
    }
}

/// `owner` and `repo` of a GitHub URL (repository or issue page).
pub fn extract_repo_name(url: &str) -> (r: Option<(String, String)>)
    ensures
        r is Some <==> repo_name_of(url@) is Some,
        r matches Some(x) ==> (x.0@, x.1@) == repo_name_of(url@)->0,
{
    let p = url_path_chars(url);
    let parts = split_chars(&p, '/');
    if parts.len() >= 3 && chars_eq_str(&parts[0], "github.com") {
        proof {
            assert(views(parts@)[0] == parts@[0]@);
            assert(views(parts@)[1] == parts@[1]@);
            assert(views(parts@)[2] == parts@[2]@);
        }
        Some((string_of(&parts[1]), string_of(&parts[2])))
    } else {
        proof {
            if parts.len() >= 3 {
                assert(views(parts@)[0] == parts@[0]@);
            }
        }
        None
    }
}

/// The number of an issue page: the segment after `issues`, when it reads as
/// a `u64`.
pub fn issue_number(url: &str) -> (r: Option<u64>)
    ensures
        r == issue_number_of(url@),
{
    let p = url_segments_of(url);
    if p.len() < 5 {
        return None;
    }
    proof {
        assert(views(p@)[3] == p@[3]@);
        assert(views(p@)[4] == p@[4]@);
    }
    if !chars_eq_str(&p[3], "issues") {
        return None;
    }
    parse_uint_chars(&p[4], u64::MAX)
}

// ------------------------------------------------------------------
// Text kept of fetched content
// ------------------------------------------------------------------

/// `s` cut to at most `max` bytes of UTF-8 at a character boundary, with `...`
/// appended when it was cut.
pub open spec fn truncated(s: Seq<char>, max: nat) -> Seq<char> {
    if byte_len(s) <= max {
        s
    } else {
        longest_fitting_prefix(s, max) + "..."@
    }
}

/// Truncation keeps a text that fits whole; a text that does not fit is cut
/// after its longest prefix that fits in `max` bytes (one character more
/// would not fit), and `...` is appended.
pub proof fn lemma_truncation_keeps_longest_prefix(s: Seq<char>, max: nat)
    ensures
        byte_len(s) <= max ==> truncated(s, max) == s,
        byte_len(s) > max ==> exists|k: int|
            #![trigger s.take(k)]
            0 <= k < s.len() && truncated(s, max) == s.take(k) + "..."@ && byte_len(s.take(k)) <= max
                && byte_len(s.take(k + 1)) > max,
{
    crate::text::lemma_fitting_prefix_is_maximal(s, max);
    if byte_len(s) > max {
        let k = choose|k: int|
            #![trigger s.take(k)]
            0 <= k <= s.len() && longest_fitting_prefix(s, max) == s.take(k) && byte_len(s.take(k))
                <= max && (k < s.len() ==> byte_len(s.take(k + 1)) > max);
        if k == s.len() {
            assert(s.take(k) =~= s);
        }
        assert(truncated(s, max) == s.take(k) + "..."@);
    }
}

/// `s` with its whitespace runs collapsed to single spaces and trimmed.
pub open spec fn cleaned(s: Seq<char>) -> Seq<char> {
    trim(join(words(s), " "@))
}

/// A cleaned text is its words joined by single spaces, and cleaning it again
/// changes nothing.
pub proof fn lemma_clean_text_idempotent(s: Seq<char>)
    ensures
        cleaned(s) == join(words(s), " "@),
        forall|i: int| 0 <= i < words(s).len() ==> is_word(#[trigger] words(s)[i]),
        cleaned(cleaned(s)) == cleaned(s),
{
    lemma_words_are_words(s);
    lemma_trim_join(words(s));
    lemma_words_of_join(words(s));
}

/// Cuts `text` to at most `max_chars` bytes, never inside a character, and
/// appends `...` when anything was cut; a text that fits is kept whole.
pub fn truncate_text(text: &str, max_chars: usize) -> (r: String)
    ensures
        r@ == truncated(text@, max_chars as nat),
{
    let v = chars_of(text);
    let (k, fits) = fitting_prefix_len(&v, max_chars);
    if fits {
        string_of(&v)
    } else {
        let mut head = slice_chars(&v, 0, k);
        assert(v@.subrange(0, k as int) =~= v@.take(k as int));
        push_str(&mut head, "...");
        string_of(&head)
    }
}

/// `text` with every run of whitespace made a single space, and trimmed.
pub fn clean_text(text: &str) -> (r: String)
    ensures
        r@ == cleaned(text@),
{
    let v = chars_of(text);
    let ws = words_of(&v);
    let sep = chars_of(" ");
    let joined = join_chars(&ws, &sep);
    let t = trim_chars(&joined);
    string_of(&t)
}

/// The number of whitespace-separated words of `text`.
pub fn word_count(text: &str) -> (r: usize)
    ensures
        r == words(text@).len(),
{
    let v = chars_of(text);
    let ws = words_of(&v);
    assert(views(ws@).len() == ws@.len());
    ws.len()
}

/// The byte limit of fetched text.
pub const MAX_CONTENT_BYTES: usize = 5000;

/// Content of the given kind holding `text` cut to `MAX_CONTENT_BYTES`, with its word count.
pub open spec fn content_of(url: Seq<char>, ct: ContentType, text: Seq<char>) -> (
    Seq<char>,
    ContentType,
    Seq<char>,
    nat,
) {
    let t = truncated(text, MAX_CONTENT_BYTES as nat);
    (url, ct, t, words(t).len())
}

/// Builds the content record: the text is cut to `MAX_CONTENT_BYTES` and its
/// words are counted.
fn make_content(url: String, ct: ContentType, text: &str) -> (r: ExternalContent)
    ensures
        (r@.url, r@.content_type, r@.text, r@.word_count as nat) == content_of(url@, ct, text@),
{
    let t = truncate_text(text, MAX_CONTENT_BYTES);
    let n = word_count(t.as_str());
    ExternalContent { url, content_type: ct, text: t, word_count: n }
}

/// The GitHub API address of a repository's README.
pub fn readme_api_url(owner: &str, repo: &str) -> (r: String)
    ensures
        r@ == "https://api.github.com/repos/"@ + owner@ + "/"@ + repo@ + "/readme"@,
{
    let mut v: Vec<char> = Vec::new();
    push_str(&mut v, "https://api.github.com/repos/");
    push_str(&mut v, owner);
    push_str(&mut v, "/");
    push_str(&mut v, repo);
    push_str(&mut v, "/readme");
    assert(v@ =~= "https://api.github.com/repos/"@ + owner@ + "/"@ + repo@ + "/readme"@);
    string_of(&v)
}

/// The content kept of a README: linked to the README's page on GitHub, the
/// text cut to `MAX_CONTENT_BYTES`.
pub fn readme_content(owner: &str, repo: &str, readme: &str) -> (r: ExternalContent)
    ensures
        (r@.url, r@.content_type, r@.text, r@.word_count as nat) == content_of(
            "https://github.com/"@ + owner@ + "/"@ + repo@ + "/blob/main/README.md"@,
            ContentType::GitHubReadme,
            readme@,
        ),
{
    let mut v: Vec<char> = Vec::new();
    push_str(&mut v, "https://github.com/");
    push_str(&mut v, owner);
    push_str(&mut v, "/");
    push_str(&mut v, repo);
    push_str(&mut v, "/blob/main/README.md");
    assert(v@ =~= "https://github.com/"@ + owner@ + "/"@ + repo@ + "/blob/main/README.md"@);
    make_content(string_of(&v), ContentType::GitHubReadme, readme)
}

/// The GitHub API address of an issue.
pub fn issue_api_url(owner: &str, repo: &str, number: u64) -> (r: String)
    ensures
        r@ == "https://api.github.com/repos/"@ + owner@ + "/"@ + repo@ + "/issues/"@ + dec_digits(
            number as nat,
        ),
{
    let mut v: Vec<char> = Vec::new();
    push_str(&mut v, "https://api.github.com/repos/");
    push_str(&mut v, owner);
    push_str(&mut v, "/");
    push_str(&mut v, repo);
    push_str(&mut v, "/issues/");
    let d = dec_chars(number);
    push_all(&mut v, &d);
    assert(v@ =~= "https://api.github.com/repos/"@ + owner@ + "/"@ + repo@ + "/issues/"@
        + dec_digits(number as nat));
    string_of(&v)
}

/// A string member of a JSON reply, or the empty text.
pub open spec fn str_or_empty(data: JsonView, key: Seq<char>) -> Seq<char> {
    match data.member_str(key) {
        Some(s) => s,
        None => seq![],
    }
}

/// The text kept of an issue: `# title`, a blank line, then the body.
pub open spec fn issue_text(data: JsonView) -> Seq<char> {
    "# "@ + str_or_empty(data, "title"@) + "\n\n"@ + str_or_empty(data, "body"@)
}

/// The content kept of an issue from the API's JSON reply: its title and body
/// (missing ones read as empty), cut to `MAX_CONTENT_BYTES`.
pub fn issue_content(url: &str, data: &JsonValue) -> (r: ExternalContent)
    ensures
        (r@.url, r@.content_type, r@.text, r@.word_count as nat) == content_of(
            url@,
            ContentType::GitHubIssue,
            issue_text(data@),
        ),
{
    let mut v: Vec<char> = Vec::new();
    push_str(&mut v, "# ");
    match data.get_str("title") {
        Some(t) => push_str(&mut v, t),
        None => {},
    }
    push_str(&mut v, "\n\n");
    match data.get_str("body") {
        Some(b) => push_str(&mut v, b),
        None => {},
    }
    assert(v@ =~= issue_text(data@));
    let text = string_of(&v);
    let u = string_of(&chars_of(url));
    make_content(u, ContentType::GitHubIssue, text.as_str())
}

// ------------------------------------------------------------------
// Article text from HTML
// ------------------------------------------------------------------

/// The text pieces of the first element a query matched.
pub open spec fn first_match_pieces(q: Option<Seq<MatchView>>) -> Option<Seq<Seq<char>>> {
    match q {
        Some(ms) => if ms.len() > 0 {
            Some(ms[0].0.0)
        } else {
            None
        },
        None => None,
    }
}

/// The text pieces of the first element of `html` matching `selector`.
pub open spec fn first_pieces(html: Seq<char>, selector: Seq<char>) -> Option<Seq<Seq<char>>> {
    first_match_pieces(spec_html_query(html, selector, seq![], ""@))
}

/// The article text of `html`: the text of the first `<article>`, else of the
/// first `<main>` or `role="main"` element, else of `<body>`, else nothing; the
/// pieces are joined with spaces, cleaned, and cut to `max` bytes.
pub open spec fn article_text(html: Seq<char>, max: nat) -> Seq<char> {
    let a = first_pieces(html, "article"@);
    let m = first_pieces(html, "main, [role='main']"@);
    let b = first_pieces(html, "body"@);
    if a is Some {
        truncated(cleaned(join(a->0, " "@)), max)
    } else if m is Some {
        truncated(cleaned(join(m->0, " "@)), max)
    } else if b is Some {
        truncated(cleaned(join(b->0, " "@)), max)
    } else {
        seq![]
    }
}

/// The characters of each string.
pub fn strings_chars(v: &Vec<String>) -> (r: Vec<Vec<char>>)
    ensures
        views(r@) == v@.map_values(|s: String| s@),
{
    let mut r: Vec<Vec<char>> = Vec::new();
    let mut i: usize = 0;
    while i < v.len()
        invariant
            i <= v.len(),
            views(r@) == v@.map_values(|s: String| s@).take(i as int),
        decreases v.len() - i,
    {
        let ghost before = views(r@);
        r.push(chars_of(v[i].as_str()));
        assert(views(r@) =~= before.push(v@[i as int]@));
        assert(v@.map_values(|s: String| s@).take(i + 1) =~= before.push(v@[i as int]@));
        i = i + 1;
    }
    assert(v@.map_values(|s: String| s@).take(v.len() as int) =~= v@.map_values(|s: String| s@));
    r
}

/// The cleaned, cut text of the first element matching `selector`.
fn first_element_text(html: &str, selector: &str, max: usize) -> (r: Option<String>)
    ensures
        r is Some <==> first_pieces(html@, selector@) is Some,
        r matches Some(t) ==> t@ == truncated(
            cleaned(join(first_pieces(html@, selector@)->0, " "@)),
            max as nat,
        ),
{
    let no_fields: Vec<String> = Vec::new();
    let q = html_query(html, selector, &no_fields, "");
    assert(no_fields@.map_values(|f: String| f@) =~= Seq::<Seq<char>>::empty());
    match q {
        None => None,
        Some(ms) => {
            if ms.len() == 0 {
                None
            } else {
                let pieces = strings_chars(&ms[0].element.text);
                let sep = chars_of(" ");
                let joined = join_chars(&pieces, &sep);
                let js = string_of(&joined);
                let c = clean_text(js.as_str());
                Some(truncate_text(c.as_str(), max))
            }
        },
    }
}

/// The article text of an HTML page: the first `<article>`, else the first
/// `<main>` or `role="main"` element, else `<body>`; its text nodes joined with
/// spaces, whitespace collapsed, cut to `max_chars` bytes. Empty when none is found.
pub fn extract_article_text(html: &str, max_chars: usize) -> (r: String)
    ensures
        r@ == article_text(html@, max_chars as nat),
{
    match first_element_text(html, "article", max_chars) {
        Some(t) => {
            return t;
        },
        None => {},
    }
    match first_element_text(html, "main, [role='main']", max_chars) {
        Some(t) => {
            return t;
        },
        None => {},
    }
    match first_element_text(html, "body", max_chars) {
        Some(t) => t,
        None => String::new(),
    }
}

/// The content kept of a web article: the article text of its HTML.
pub fn article_content(url: &str, html: &str) -> (r: ExternalContent)
    ensures
        r@.url == url@,
        r@.content_type == ContentType::WebArticle,
        r@.text == article_text(html@, MAX_CONTENT_BYTES as nat),
        r@.word_count == words(r@.text).len(),
{
    let text = extract_article_text(html, MAX_CONTENT_BYTES);
    let n = word_count(text.as_str());
    ExternalContent {
        url: string_of(&chars_of(url)),
        content_type: ContentType::WebArticle,
        text,
        word_count: n,
    }
}

// ------------------------------------------------------------------
// Batches
// ------------------------------------------------------------------

/// Whether the `i`-th entry of a batch is fetched: its URL is neither among
/// the URLs to skip nor the URL of an earlier entry.
pub open spec fn fetched_in_batch(items: Seq<ItemUrl>, skip: Seq<Seq<char>>, i: int) -> bool {
    !skip.contains(items[i]) && !items.take(i).contains(items[i])
}

/// A URL, as the batch plan compares them.
pub type ItemUrl = Seq<char>;

/// For each entry of a batch, its id and whether its content is fetched: an
/// entry whose URL is among `skip_urls`, or is the URL of an earlier entry, is
/// not.
pub fn batch_plan(items: &Vec<TrendingItem>, skip_urls: &Vec<String>) -> (r: Vec<(String, bool)>)
    ensures
        r.len() == items.len(),
        forall|i: int|
            0 <= i < items.len() ==> #[trigger] r[i].0@ == items[i].id@ && r[i].1
                == fetched_in_batch(
                items@.map_values(|it: TrendingItem| it.url@),
                skip_urls@.map_values(|s: String| s@),
                i,
            ),
{
    let ghost urls = items@.map_values(|it: TrendingItem| it.url@);
    let ghost skip = skip_urls@.map_values(|s: String| s@);
    let mut seen: Vec<Vec<char>> = strings_chars(skip_urls);
    let mut r: Vec<(String, bool)> = Vec::new();
    let mut i: usize = 0;
    while i < items.len()
        invariant
            i <= items.len(),
            r.len() == i,
            urls == items@.map_values(|it: TrendingItem| it.url@),
            skip == skip_urls@.map_values(|s: String| s@),
            views(seen@) == skip + urls.take(i as int),
            forall|j: int|
                0 <= j < i ==> #[trigger] r[j].0@ == items[j].id@ && r[j].1 == fetched_in_batch(
                    urls,
                    skip,
                    j,
                ),
        decreases items.len() - i,
    {
        let u = chars_of(items[i].url.as_str());
        let mut found = false;
        let mut k: usize = 0;
        while k < seen.len()
            invariant
                k <= seen.len(),
                u@ == urls[i as int],
                found == views(seen@).take(k as int).contains(u@),
            decreases seen.len() - k,
        {
            proof {
                assert(views(seen@).take(k + 1) =~= views(seen@).take(k as int).push(seen@[k as int]@));
            }
            if !found && chars_eq(&seen[k], &u) {
                found = true;
            }
            proof {
                if found {
                    assert(views(seen@).take(k as int).contains(u@) || seen@[k as int]@ == u@);
                    if seen@[k as int]@ == u@ {
                        assert(views(seen@).take(k + 1)[k as int] == u@);
                    } else {
                        let j = choose|j: int| 0 <= j < k && views(seen@).take(k as int)[j] == u@;
                        assert(views(seen@).take(k + 1)[j] == u@);
                    }
                } else {
                    assert forall|j: int| 0 <= j < k + 1 implies #[trigger] views(seen@).take(k + 1)[j] != u@ by {
                        if j < k {
                            assert(views(seen@).take(k as int)[j] == views(seen@).take(k + 1)[j]);
                        }
                    }
                }
            }
            k = k + 1;
        }
        proof {
            assert(views(seen@).take(seen.len() as int) =~= views(seen@));
            let all = skip + urls.take(i as int);
            assert(all.contains(u@) <==> (skip.contains(u@) || urls.take(i as int).contains(u@))) by {
                if all.contains(u@) {
                    let j = choose|j: int| 0 <= j < all.len() && all[j] == u@;
                    if j >= skip.len() {
                        assert(urls.take(i as int)[j - skip.len()] == u@);
                    }
                }
                if skip.contains(u@) {
                    let j = choose|j: int| 0 <= j < skip.len() && skip[j] == u@;
                    assert(all[j] == u@);
                }
                if urls.take(i as int).contains(u@) {
                    let j = choose|j: int| 0 <= j < i && urls.take(i as int)[j] == u@;
                    assert(all[skip.len() + j] == u@);
                }
            }
        }
        let id = string_of(&chars_of(items[i].id.as_str()));
        let ghost r_before = r@;
        proof {
            assert forall|j: int| 0 <= j < i implies r_before[j].0@ == items[j].id@ && r_before[j].1
                == fetched_in_batch(urls, skip, j) by {
                assert(r[j].0@ == items[j].id@);
            }
        }
        r.push((id, !found));
        proof {
            assert(r[i as int].0@ == items[i as int].id@);
            assert(r[i as int].1 == fetched_in_batch(urls, skip, i as int));
            assert forall|j: int| 0 <= j < i + 1 implies #[trigger] r[j].0@ == items[j].id@ && r[j].1
                == fetched_in_batch(urls, skip, j) by {
                if j < i {
                    assert(r[j] == r_before[j]);
                    assert(r_before[j].0@ == items[j].id@);
                }
            }
        }
        let ghost before = views(seen@);
        seen.push(u);
        proof {
            assert(views(seen@) =~= before.push(urls[i as int]));
            assert(urls.take(i + 1) =~= urls.take(i as int).push(urls[i as int]));
            assert(views(seen@) =~= skip + urls.take(i + 1));
        }
        i = i + 1;
    }
    r
}

// ------------------------------------------------------------------
// What to request for an entry's content
// ------------------------------------------------------------------

/// The request that fetches the content behind a link.
#[derive(Debug)]
pub enum ContentRequest {
    /// The README of `owner/repo`, from the GitHub API at `api_url`.
    Readme { owner: String, repo: String, api_url: String },
    /// An issue, from the GitHub API at `api_url`.
    Issue { api_url: String },
    /// The page itself.
    Article { url: String },
}

/// The request that fetches the content behind `url`, by its kind: the
/// README API of a repository page, the issue API of an issue page, else the
/// page itself; `None` when a GitHub page lacks its owner and name, or an
/// issue page its number.
pub fn content_request(url: &str) -> (r: Option<ContentRequest>)
    ensures
        content_type_of(url@) == ContentType::WebArticle ==> (r matches Some(
            ContentRequest::Article { url: u },
        ) && u@ == url@),
        content_type_of(url@) == ContentType::GitHubReadme ==> match repo_name_of(url@) {
            Some((o, n)) => r matches Some(ContentRequest::Readme { owner, repo, api_url }) && owner@
                == o && repo@ == n && api_url@ == "https://api.github.com/repos/"@ + o + "/"@ + n
                + "/readme"@,
            None => r is None,
        },
        content_type_of(url@) == ContentType::GitHubIssue ==> match (
            repo_name_of(url@),
            issue_number_of(url@),
        ) {
            (Some((o, n)), Some(k)) => r matches Some(ContentRequest::Issue { api_url }) && api_url@
                == "https://api.github.com/repos/"@ + o + "/"@ + n + "/issues/"@ + dec_digits(
                k as nat,
            ),
            _ => r is None,
        },
{
    match detect_content_type(url) {
        ContentType::GitHubReadme => match extract_repo_name(url) {
            Some((owner, repo)) => {
                let api_url = readme_api_url(owner.as_str(), repo.as_str());
                Some(ContentRequest::Readme { owner, repo, api_url })
            },
            None => None,
        },
        ContentType::GitHubIssue => match extract_repo_name(url) {
            Some((owner, repo)) => match issue_number(url) {
                Some(k) => Some(
                    ContentRequest::Issue { api_url: issue_api_url(owner.as_str(), repo.as_str(), k) },
                ),
                None => None,
            },
            None => None,
        },
        ContentType::WebArticle => Some(ContentRequest::Article { url: url.to_owned() }),
    }
}

/// Which element the article text comes from, stated against scraper's
/// query: the first `<article>` when the page has one; else the first
/// element matching `main, [role='main']`; else `<body>`; else nothing. The
/// text is that element's text pieces joined with spaces, cleaned, and cut
/// to `max` bytes.
pub proof fn lemma_article_text_source(html: Seq<char>, max: nat)
    ensures
        ({
            let a = first_match_pieces(spec_html_query(html, "article"@, seq![], ""@));
            let m = first_match_pieces(spec_html_query(html, "main, [role='main']"@, seq![], ""@));
            let b = first_match_pieces(spec_html_query(html, "body"@, seq![], ""@));
            &&& a matches Some(p) ==> article_text(html, max) == truncated(cleaned(join(p, " "@)), max)
            &&& a is None ==> (m matches Some(p) ==> article_text(html, max) == truncated(
                cleaned(join(p, " "@)),
                max,
            ))
            &&& a is None && m is None ==> (b matches Some(p) ==> article_text(html, max) == truncated(
                cleaned(join(p, " "@)),
                max,
            ))
            &&& a is None && m is None && b is None ==> article_text(html, max).len() == 0
        }),
{
}

} // verus!
