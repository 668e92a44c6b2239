//! Summaries of fetched content by a chat model: the grouping of entries into
//! requests, the prompts, the reading of the replies, and the steps of a
//! summarizing run.
use vstd::prelude::*;
use vstd::utf8::encode_utf8;
use crate::cache::derefs;
use crate::item::{ContentModel, ContentType, ExternalContent, TrendingItem};
use crate::json::{parse_json, spec_parse_json, JsonValue, JsonView};
use crate::text::{
    chars_of, dec_chars, dec_digits, dec_string, join, join_chars, push_all, push_str, string_of,
    trim, trim_chars, views,
};

verus! {

/// The most content, in bytes, that one request gathers from several entries.
pub const MAX_BATCH_CONTENT_CHARS: usize = 50_000;

// ------------------------------------------------------------------
// Grouping entries into requests
// ------------------------------------------------------------------

/// The length in bytes of a text in UTF-8.
pub open spec fn text_bytes(t: Seq<char>) -> nat {
    encode_utf8(t).len()
}

/// The length in bytes of an entry's fetched content, as `str::len` reports
/// it; 0 without content.
pub open spec fn content_len(it: TrendingItem) -> nat {
    match it.external_content {
        Some(c) => (text_bytes(c.text@) as usize) as nat,
        None => 0,
    }
}

/// The batches closed so far, the open batch, and the bytes of the open batch.
pub type BatchState = (Seq<Seq<int>>, Seq<int>, nat);

/// Whether an entry of `len` bytes closes the open batch: it reaches the limit
/// alone, or it would take the open batch past it.
pub open spec fn starts_new_batch(open: Seq<int>, open_len: nat, len: nat) -> bool {
    len >= MAX_BATCH_CONTENT_CHARS || (open.len() > 0 && open_len + len > MAX_BATCH_CONTENT_CHARS)
}

/// The batches after entry `i`, of `len` bytes of content: an entry without
/// content is left out; otherwise it joins the open batch, which is closed
/// first when the entry would not fit.
pub open spec fn batch_step(st: BatchState, i: int, len: nat) -> BatchState {
    if len == 0 {
        st
    } else if starts_new_batch(st.1, st.2, len) && st.1.len() > 0 {
        (st.0.push(st.1), seq![i], len)
    } else {
        (st.0, st.1.push(i), st.2 + len)
    }
}

/// The batches after all the entries, in order.
pub open spec fn batch_scan(items: Seq<TrendingItem>) -> BatchState
    decreases items.len(),
{
    if items.len() == 0 {
        (seq![], seq![], 0)
    } else {
        batch_step(batch_scan(items.drop_last()), items.len() - 1, content_len(items.last()))
    }
}

/// The batches of a run: the positions of the entries with content, grouped
/// in order, the open batch closed at the end.
pub open spec fn batches_of(items: Seq<TrendingItem>) -> Seq<Seq<int>> {
    let st = batch_scan(items);
    if st.1.len() > 0 {
        st.0.push(st.1)
    } else {
        st.0
    }
}

/// The plain value of a list of positions.
pub open spec fn idx_view(v: Seq<usize>) -> Seq<int> {
    v.map_values(|i: usize| i as int)
}

/// The plain value of a list of batches.
pub open spec fn batches_view(v: Seq<Vec<usize>>) -> Seq<Seq<int>> {
    v.map_values(|b: Vec<usize>| idx_view(b@))
}

/// Groups the entries with fetched content into batches for one request
/// each, by position: in order, each batch as full as the limit allows; an
/// entry whose content alone reaches the limit goes alone.
pub fn group_indices(items: &[TrendingItem]) -> (r: Vec<Vec<usize>>)
    ensures
        batches_view(r@) == batches_of(items@),
{
    let mut batches: Vec<Vec<usize>> = Vec::new();
    let mut current: Vec<usize> = Vec::new();
    let mut current_len: usize = 0;
    let mut i: usize = 0;
    while i < items.len()
        invariant
            i <= items.len(),
            (batches_view(batches@), idx_view(current@), current_len as nat) == batch_scan(
                items@.take(i as int),
            ),
            current@.len() == 0 ==> current_len == 0,
        decreases items.len() - i,
    {
        proof {
            assert(items@.take(i + 1).drop_last() =~= items@.take(i as int));
            assert(items@.take(i + 1).last() == items@[i as int]);
        }
        let content_len: usize = match &items[i].external_content {
            Some(c) => c.text.as_str().len(),
            None => 0,
        };
        if content_len > 0 {
            let start_new = content_len >= MAX_BATCH_CONTENT_CHARS || (current.len() > 0 && (
            current_len > MAX_BATCH_CONTENT_CHARS || content_len > MAX_BATCH_CONTENT_CHARS
                - current_len));
            if start_new && current.len() > 0 {
                let ghost b = batches_view(batches@);
                let ghost c = idx_view(current@);
                batches.push(current);
                assert(batches_view(batches@) =~= b.push(c));
                current = Vec::new();
                current.push(i);
                assert(idx_view(current@) =~= seq![i as int]);
                current_len = content_len;
            } else {
                let ghost c = idx_view(current@);
                current.push(i);
                assert(idx_view(current@) =~= c.push(i as int));
                current_len = current_len + content_len;
            }
        }
        i = i + 1;
    }
    assert(items@.take(items.len() as int) =~= items@);
    if current.len() > 0 {
        let ghost b = batches_view(batches@);
        let ghost c = idx_view(current@);
        batches.push(current);
        assert(batches_view(batches@) =~= b.push(c));
    }
    batches
}

// ------------------------------------------------------------------
// Prompts
// ------------------------------------------------------------------

/// The opening of the prompt for one kind of content, up to the word count.
pub open spec fn prompt_head(t: ContentType) -> Seq<char> {
    match t {
        ContentType::GitHubReadme => "以下是 GitHub 仓库的 README 内容（"@,
        ContentType::GitHubIssue => "以下是 GitHub Issue 内容（"@,
        ContentType::WebArticle => "以下是网页文章内容（"@,
    }
}

/// The prompt that asks for the summary of one piece of content: what it is,
/// its word count, and its text.
pub open spec fn prompt_of(c: ContentModel) -> Seq<char> {
    prompt_head(c.content_type) + dec_digits(c.word_count as nat) + " 字）：\n\n"@ + c.text
}

/// The prompt that asks for the summary of one piece of content.
pub fn build_prompt(content: &ExternalContent) -> (r: String)
    ensures
        r@ == prompt_of(content@),
{
    let mut v = match content.content_type {
        ContentType::GitHubReadme => chars_of("以下是 GitHub 仓库的 README 内容（"),
        ContentType::GitHubIssue => chars_of("以下是 GitHub Issue 内容（"),
        ContentType::WebArticle => chars_of("以下是网页文章内容（"),
    };
    let d = dec_chars(content.word_count as u64);
    push_all(&mut v, &d);
    push_str(&mut v, " 字）：\n\n");
    push_str(&mut v, content.text.as_str());
    string_of(&v)
}

/// The label of a kind of content in a batch prompt.
pub open spec fn type_label(t: ContentType) -> Seq<char> {
    match t {
        ContentType::GitHubReadme => "GitHub 仓库"@,
        ContentType::GitHubIssue => "GitHub Issue"@,
        ContentType::WebArticle => "网页文章"@,
    }
}

/// The opening lines of a batch prompt for `n` entries.
pub open spec fn batch_header(n: nat) -> Seq<Seq<char>> {
    seq![
        "请总结以下 "@ + dec_digits(n) + " 条内容，每条用 2-3 句中文概括核心要点。"@,
        "返回 JSON 格式，键为序号 \"0\", \"1\", ...，值为总结文本。"@,
        seq![],
    ]
}

/// The part of a batch prompt for the entry at position `i`: its position,
/// kind, title and text.
pub open spec fn entry_part(i: nat, it: TrendingItem, c: ExternalContent) -> Seq<char> {
    "--- 条目 "@ + dec_digits(i) + ": ["@ + type_label(c.content_type) + "] "@ + it.title@ + " ---\n"@
        + c.text@
}

/// The parts of a batch prompt for the entries that have content, in order.
pub open spec fn entry_parts(items: Seq<TrendingItem>) -> Seq<Seq<char>>
    decreases items.len(),
{
    if items.len() == 0 {
        seq![]
    } else {
        let p = entry_parts(items.drop_last());
        match items.last().external_content {
            Some(c) => p.push(entry_part((items.len() - 1) as nat, items.last(), c)),
            None => p,
        }
    }
}

/// The prompt that asks for the summaries of several entries at once: the
/// opening lines and one part per entry with content, one per line.
pub open spec fn batch_prompt(items: Seq<TrendingItem>) -> Seq<char> {
    join(batch_header(items.len()) + entry_parts(items), "\n"@)
}

/// The part of a batch prompt for the entry at position `i`.
fn build_entry_part(i: usize, item: &TrendingItem, c: &ExternalContent) -> (r: Vec<char>)
    ensures
        r@ == entry_part(i as nat, *item, *c),
{
    let mut v = chars_of("--- 条目 ");
    let d = dec_chars(i as u64);
    push_all(&mut v, &d);
    push_str(&mut v, ": [");
    match c.content_type {
        ContentType::GitHubReadme => push_str(&mut v, "GitHub 仓库"),
        ContentType::GitHubIssue => push_str(&mut v, "GitHub Issue"),
        ContentType::WebArticle => push_str(&mut v, "网页文章"),
    }
    push_str(&mut v, "] ");
    push_str(&mut v, item.title.as_str());
    push_str(&mut v, " ---\n");
    push_str(&mut v, c.text.as_str());
    v
}

/// The prompt that asks for the summaries of several entries at once.
pub fn build_batch_prompt(items: &[&TrendingItem]) -> (r: String)
    ensures
        r@ == batch_prompt(derefs(items@)),
{
    let ghost its = derefs(items@);
    let mut parts: Vec<Vec<char>> = Vec::new();
    let mut first = chars_of("请总结以下 ");
    let d = dec_chars(items.len() as u64);
    push_all(&mut first, &d);
    push_str(&mut first, " 条内容，每条用 2-3 句中文概括核心要点。");
    parts.push(first);
    parts.push(chars_of("返回 JSON 格式，键为序号 \"0\", \"1\", ...，值为总结文本。"));
    parts.push(Vec::new());
    assert(views(parts@) =~= batch_header(its.len()));
    assert(its.take(0) =~= Seq::<TrendingItem>::empty());
    let mut i: usize = 0;
    while i < items.len()
        invariant
            i <= items.len(),
            its == derefs(items@),
            views(parts@) == batch_header(its.len()) + entry_parts(its.take(i as int)),
        decreases items.len() - i,
    {
        proof {
            assert(its.take(i + 1).drop_last() =~= its.take(i as int));
            assert(its.take(i + 1).last() == *items@[i as int]);
        }
        match &items[i].external_content {
            Some(c) => {
                let part = build_entry_part(i, items[i], c);
                let ghost before = views(parts@);
                parts.push(part);
                assert(views(parts@) =~= before.push(part@));
            },
            None => {},
        }
        i = i + 1;
    }
    assert(its.take(items.len() as int) =~= its);
    let sep = chars_of("\n");
    let joined = join_chars(&parts, &sep);
    string_of(&joined)
}

// ------------------------------------------------------------------
// Requests and replies
// ------------------------------------------------------------------

/// Why an entry or a batch could not be summarized.
#[derive(Debug)]
pub enum SummaryError {
    /// The entry has no fetched content.
    NoContent,
    /// The reply held no choice.
    EmptyReply,
    /// The reply to a batch was not JSON.
    NotJson,
    /// The reply to a batch was JSON but not an object.
    NotObject,
    /// The reply to a batch had no summary for this entry, under this key.
    MissingSummary { id: String, key: String },
}

impl SummaryError {
    /// The message shown for this error.
    pub fn message(&self) -> (r: String)
        ensures
            match self {
                SummaryError::NoContent => r@ == "条目没有外部内容可总结"@,
                SummaryError::EmptyReply => r@ == "DeepSeek 返回空响应"@,
                SummaryError::NotJson => r@ == "批量总结响应不是有效 JSON"@,
                SummaryError::NotObject => r@ == "批量总结响应不是 JSON 对象"@,
                SummaryError::MissingSummary { id, key } => r@ == "批量总结响应缺少条目 "@ + id@
                    + " 的总结 (key="@ + key@ + ")"@,
            },
    {
        match self {
            SummaryError::NoContent => string_of(&chars_of("条目没有外部内容可总结")),
            SummaryError::EmptyReply => string_of(&chars_of("DeepSeek 返回空响应")),
            SummaryError::NotJson => string_of(&chars_of("批量总结响应不是有效 JSON")),
            SummaryError::NotObject => string_of(&chars_of("批量总结响应不是 JSON 对象")),
            SummaryError::MissingSummary { id, key } => {
                let mut v = chars_of("批量总结响应缺少条目 ");
                push_str(&mut v, id.as_str());
                push_str(&mut v, " 的总结 (key=");
                push_str(&mut v, key.as_str());
                push_str(&mut v, ")");
                string_of(&v)
            },
        }
    }
}

/// A chat request: the model, the system and user messages, the most tokens
/// of the reply, and whether the reply must be a JSON object.
#[derive(Debug)]
pub struct ChatPlan {
    pub model: String,
    pub system: String,
    pub user: String,
    pub max_tokens: u32,
    pub json_reply: bool,
}

/// The system message of a request for one summary.
pub open spec fn single_system_prompt() -> Seq<char> {
    "你是一个技术热点摘要助手。请用简洁的中文总结以下内容的核心要点，限 3-5 句话。聚焦于：这个项目/文章解决什么问题、有什么亮点、为什么值得关注。"@
}

/// The system message of a request for several summaries.
pub open spec fn batch_system_prompt() -> Seq<char> {
    "你是一个技术热点摘要助手。用户会提供若干条目及其内容。请用简洁的中文逐条总结，每条 2-3 句话，聚焦于解决什么问题、有什么亮点。必须返回合法的 JSON 对象，键为 \"0\", \"1\", \"2\"... 对应条目的序号，值为总结文本。示例：{\"0\": \"总结内容...\", \"1\": \"总结内容...\"}"@
}

/// The request for the summary of one entry: `deepseek-chat`, at most 300
/// tokens, a plain-text reply; an entry without content has none.
pub fn single_request(item: &TrendingItem) -> (r: Result<ChatPlan, SummaryError>)
    ensures
        match item.external_content {
            None => r matches Err(SummaryError::NoContent),
            Some(c) => (r matches Ok(p) && p.model@ == "deepseek-chat"@ && p.system@
                == single_system_prompt() && p.user@ == prompt_of(c@) && p.max_tokens == 300
                && !p.json_reply),
        },
{
    match &item.external_content {
        None => Err(SummaryError::NoContent),
        Some(c) => Ok(
            ChatPlan {
                model: "deepseek-chat".to_owned(),
                system: string_of(
                    &chars_of(
                        "你是一个技术热点摘要助手。请用简洁的中文总结以下内容的核心要点，限 3-5 句话。聚焦于：这个项目/文章解决什么问题、有什么亮点、为什么值得关注。",
                    ),
                ),
                user: build_prompt(c),
                max_tokens: 300,
                json_reply: false,
            },
        ),
    }
}

/// The request for the summaries of several entries: `deepseek-chat`, 300
/// tokens per entry and 500 more, a JSON-object reply.
pub fn batch_request(items: &[&TrendingItem]) -> (r: ChatPlan)
    requires
        items.len() * 300 + 500 <= u32::MAX,
    ensures
        r.model@ == "deepseek-chat"@,
        r.system@ == batch_system_prompt(),
        r.user@ == batch_prompt(derefs(items@)),
        r.max_tokens == items.len() * 300 + 500,
        r.json_reply,
{
    let n = items.len() as u32;
    ChatPlan {
        model: "deepseek-chat".to_owned(),
        system: string_of(
            &chars_of(
                "你是一个技术热点摘要助手。用户会提供若干条目及其内容。请用简洁的中文逐条总结，每条 2-3 句话，聚焦于解决什么问题、有什么亮点。必须返回合法的 JSON 对象，键为 \"0\", \"1\", \"2\"... 对应条目的序号，值为总结文本。示例：{\"0\": \"总结内容...\", \"1\": \"总结内容...\"}",
            ),
        ),
        user: build_batch_prompt(items),
        max_tokens: n * 300 + 500,
        json_reply: true,
    }
}

/// The summary in a reply: the text of its first choice, trimmed.
pub fn reply_text(choices: &Vec<String>) -> (r: Result<String, SummaryError>)
    ensures
        choices.len() == 0 ==> r matches Err(SummaryError::EmptyReply),
        choices.len() > 0 ==> (r matches Ok(t) && t@ == trim(choices@[0]@)),
{
    if choices.len() == 0 {
        Err(SummaryError::EmptyReply)
    } else {
        let v = chars_of(choices[0].as_str());
        let t = trim_chars(&v);
        Ok(string_of(&t))
    }
}

/// The summary the reply to a batch gives for the entry at position `i`: the
/// string under the key `i`.
pub open spec fn summary_at(reply: JsonView, i: nat) -> Option<Seq<char>> {
    reply.member_str(dec_digits(i))
}

/// What reading the reply `reply` to a batch of entries with ids `ids` gives:
/// the (id, summary) pairs in the order of the batch when the reply is an
/// object with a string under each position; else `NotObject`, or the first
/// position without one as `MissingSummary`.
pub open spec fn batch_outcome(
    ids: Seq<Seq<char>>,
    reply: JsonView,
    r: Result<Vec<(String, String)>, SummaryError>,
) -> bool {
    match r {
        Ok(v) => {
            &&& reply is Obj
            &&& v.len() == ids.len()
            &&& forall|i: int|
                0 <= i < ids.len() ==> (#[trigger] v@[i]).0@ == ids[i] && summary_at(reply, i as nat)
                    == Some(v@[i].1@)
        },
        Err(SummaryError::NotObject) => !(reply is Obj),
        Err(SummaryError::MissingSummary { id, key }) => {
            &&& reply is Obj
            &&& exists|i: int|
                0 <= i < ids.len() && key@ == dec_digits(i as nat) && id@ == ids[i] && summary_at(
                    reply,
                    i as nat,
                ) is None && forall|j: int| 0 <= j < i ==> #[trigger] summary_at(reply, j as nat) is Some
        },
        Err(_) => false,
    }
}

/// The ids of the entries of a batch.
pub open spec fn batch_ids(items: Seq<&TrendingItem>) -> Seq<Seq<char>> {
    items.map_values(|it: &TrendingItem| it.id@)
}

/// The (id, summary) pairs of a batch read from its reply, in the order of
/// the batch. The reply must be an object with a string under each position
/// of the batch; the first position without one is reported.
pub fn batch_results(items: &[&TrendingItem], parsed: &JsonValue) -> (r: Result<
    Vec<(String, String)>,
    SummaryError,
>)
    ensures
        batch_outcome(batch_ids(items@), parsed@, r),
{
    match parsed {
        JsonValue::Object(_) => {},
        _ => {
            return Err(SummaryError::NotObject);
        },
    }
    let mut r: Vec<(String, String)> = Vec::new();
    let mut i: usize = 0;
    while i < items.len()
        invariant
            i <= items.len(),
            parsed is Object,
            r.len() == i,
            batch_ids(items@).len() == items.len(),
            forall|k: int| 0 <= k < items.len() ==> #[trigger] batch_ids(items@)[k] == items@[k].id@,
            forall|k: int|
                0 <= k < i ==> (#[trigger] r@[k]).0@ == items@[k].id@ && summary_at(
                    parsed@,
                    k as nat,
                ) == Some(r@[k].1@),
        decreases items.len() - i,
    {
        let key = dec_string(i as u64);
        match parsed.get_str(key.as_str()) {
            Some(text) => {
                let ghost before = r@;
                r.push((items[i].id.clone(), text.to_owned()));
                assert forall|k: int| 0 <= k < i + 1 implies (#[trigger] r@[k]).0@ == items@[k].id@
                    && summary_at(parsed@, k as nat) == Some(r@[k].1@) by {
                    if k < i {
                        assert(r@[k] == before[k]);
                        assert(summary_at(parsed@, k as nat) == Some(before[k].1@));
                    }
                }
            },
            None => {
                let id = items[i].id.clone();
                assert forall|j: int| 0 <= j < i implies #[trigger] summary_at(parsed@, j as nat) is Some by {
                    assert(summary_at(parsed@, j as nat) == Some(r@[j].1@));
                }
                assert(batch_ids(items@)[i as int] == id@);
                assert(summary_at(parsed@, i as nat) is None);
                return Err(SummaryError::MissingSummary { id, key });
            },
        }
        i = i + 1;
    }
    Ok(r)
}

/// The (id, summary) pairs of a batch read from the text of its reply: the
/// text must be JSON (else `NotJson`), and the value it holds is read as
/// `batch_results` reads it.
pub fn batch_reply_results(items: &[&TrendingItem], text: &str) -> (r: Result<
    Vec<(String, String)>,
    SummaryError,
>)
    ensures
        match spec_parse_json(text@) {
            None => r matches Err(SummaryError::NotJson),
            Some(reply) => batch_outcome(batch_ids(items@), reply, r),
        },
{
    match parse_json(text) {
        None => Err(SummaryError::NotJson),
        Some(v) => batch_results(items, &v),
    }
}

// ------------------------------------------------------------------
// A summarizing run
// ------------------------------------------------------------------

/// An entry with its summary set to `s`.
pub open spec fn with_summary(it: TrendingItem, s: String) -> TrendingItem {
    TrendingItem {
        source: it.source,
        id: it.id,
        title: it.title,
        url: it.url,
        score: it.score,
        external_content: it.external_content,
        summary: Some(s),
    }
}

/// Whether position `k` holds the first entry with id `id`.
pub open spec fn first_id_at(items: Seq<TrendingItem>, id: Seq<char>, k: int) -> bool {
    0 <= k < items.len() && items[k].id@ == id && forall|j: int| 0 <= j < k ==> #[trigger] items[j].id@ != id
}

/// The position of the first entry with id `id`.
pub open spec fn first_with_id(items: Seq<TrendingItem>, id: Seq<char>) -> Option<int> {
    if exists|k: int| first_id_at(items, id, k) {
        Some(choose|k: int| first_id_at(items, id, k))
    } else {
        None
    }
}

/// The entries after the summaries of a batch are applied in order, each to
/// the first entry with its id, and how many found an entry.
pub open spec fn apply_results(items: Seq<TrendingItem>, results: Seq<(String, String)>) -> (
    Seq<TrendingItem>,
    nat,
)
    decreases results.len(),
{
    if results.len() == 0 {
        (items, 0)
    } else {
        let prev = apply_results(items, results.drop_last());
        match first_with_id(prev.0, results.last().0@) {
            Some(k) => (prev.0.update(k, with_summary(prev.0[k], results.last().1)), prev.1 + 1),
            None => prev,
        }
    }
}

/// Whether two entries agree on everything but their summaries.
pub open spec fn same_but_summary(a: TrendingItem, b: TrendingItem) -> bool {
    &&& a.source == b.source
    &&& a.id == b.id
    &&& a.title == b.title
    &&& a.url == b.url
    &&& a.score == b.score
    &&& a.external_content == b.external_content
}

/// Whether two lists of entries agree, position by position, on everything
/// but the summaries.
pub open spec fn same_but_summaries(a: Seq<TrendingItem>, b: Seq<TrendingItem>) -> bool {
    &&& a.len() == b.len()
    &&& forall|i: int| 0 <= i < a.len() ==> same_but_summary(a[i], #[trigger] b[i])
}

/// Agreeing on all but summaries holds of a list and itself, and carries
/// over from one list to the next.
pub proof fn lemma_same_but_summaries_chain(a: Seq<TrendingItem>, b: Seq<TrendingItem>, c: Seq<TrendingItem>)
    ensures
        same_but_summaries(a, a),
        same_but_summaries(a, b) && same_but_summaries(b, c) ==> same_but_summaries(a, c),
{
    if same_but_summaries(a, b) && same_but_summaries(b, c) {
        assert forall|i: int| 0 <= i < a.len() implies same_but_summary(a[i], #[trigger] c[i]) by {
            assert(same_but_summary(a[i], b[i]));
            assert(same_but_summary(b[i], c[i]));
        }
    }
}

/// Setting a summary changes nothing else.
proof fn lemma_set_summary_keeps(items: Seq<TrendingItem>, k: int, s: String)
    requires
        0 <= k < items.len(),
    ensures
        same_but_summaries(items, items.update(k, with_summary(items[k], s))),
{
    let u = items.update(k, with_summary(items[k], s));
    assert forall|i: int| 0 <= i < items.len() implies same_but_summary(items[i], #[trigger] u[i]) by {
        if i != k {
            assert(u[i] == items[i]);
        }
    }
}

/// Applying the summaries of a batch changes nothing but summaries.
pub proof fn lemma_apply_results_keeps(items: Seq<TrendingItem>, results: Seq<(String, String)>)
    ensures
        same_but_summaries(items, apply_results(items, results).0),
    decreases results.len(),
{
    lemma_same_but_summaries_chain(items, items, items);
    if results.len() > 0 {
        lemma_apply_results_keeps(items, results.drop_last());
        let prev = apply_results(items, results.drop_last());
        match first_with_id(prev.0, results.last().0@) {
            Some(k) => {
                let k0 = choose|k: int| first_id_at(prev.0, results.last().0@, k);
                assert(k == k0);
                lemma_set_summary_keeps(prev.0, k, results.last().1);
                lemma_same_but_summaries_chain(
                    items,
                    prev.0,
                    prev.0.update(k, with_summary(prev.0[k], results.last().1)),
                );
            },
            None => {},
        }
    }
}

/// Entries that agree on all but summaries have their content at the same
/// positions.
pub proof fn lemma_content_positions_kept(a: Seq<TrendingItem>, b: Seq<TrendingItem>)
    requires
        same_but_summaries(a, b),
    ensures
        content_indices(a) == content_indices(b),
    decreases a.len(),
{
    if a.len() > 0 {
        assert(same_but_summary(a[a.len() - 1], b[b.len() - 1]));
        assert(same_but_summaries(a.drop_last(), b.drop_last())) by {
            assert forall|i: int| 0 <= i < a.drop_last().len() implies same_but_summary(
                a.drop_last()[i],
                #[trigger] b.drop_last()[i],
            ) by {
                assert(same_but_summary(a[i], b[i]));
            }
        }
        lemma_content_positions_kept(a.drop_last(), b.drop_last());
    }
}

/// The position of the first entry with id `id`.
fn find_id(items: &[TrendingItem], id: &str) -> (r: Option<usize>)
    ensures
        match r {
            Some(k) => first_with_id(items@, id@) == Some(k as int),
            None => first_with_id(items@, id@) is None,
        },
{
    let mut i: usize = 0;
    while i < items.len()
        invariant
            i <= items.len(),
            forall|j: int| 0 <= j < i ==> #[trigger] items@[j].id@ != id@,
        decreases items.len() - i,
    {
        if crate::text::str_eq(items[i].id.as_str(), id) {
            assert(first_id_at(items@, id@, i as int));
            let ghost k = choose|k: int| first_id_at(items@, id@, k);
            assert(k == i) by {
                if k < i {
                    assert(items@[k].id@ != id@);
                }
                if k > i {
                    assert(items@[i as int].id@ != id@);
                }
            }
            return Some(i);
        }
        i = i + 1;
    }
    assert forall|k: int| !first_id_at(items@, id@, k) by {
        if 0 <= k < items.len() {
            assert(items@[k].id@ != id@);
        }
    }
    None
}

/// Sets the summary of the entry at position `k`.
fn set_summary(items: &mut [TrendingItem], k: usize, s: String)
    requires
        k < old(items).len(),
    ensures
        final(items)@ == old(items)@.update(k as int, with_summary(old(items)@[k as int], s)),
{
    let mut it = items[k].clone();
    it.summary = Some(s);
    items[k] = it;
}

/// Applies the summaries of a batch, each to the first entry with its id,
/// and counts those that found an entry.
fn apply_batch(items: &mut [TrendingItem], results: &Vec<(String, String)>) -> (n: usize)
    ensures
        final(items)@ == apply_results(old(items)@, results@).0,
        n == apply_results(old(items)@, results@).1,
        n <= results.len(),
{
    let ghost orig = items@;
    let mut n: usize = 0;
    let mut k: usize = 0;
    while k < results.len()
        invariant
            k <= results.len(),
            items@ == apply_results(orig, results@.take(k as int)).0,
            n == apply_results(orig, results@.take(k as int)).1,
            n <= k,
        decreases results.len() - k,
    {
        proof {
            assert(results@.take(k + 1).drop_last() =~= results@.take(k as int));
            assert(results@.take(k + 1).last() == results@[k as int]);
        }
        match find_id(items, results[k].0.as_str()) {
            Some(j) => {
                set_summary(items, j, results[k].1.clone());
                n = n + 1;
            },
            None => {},
        }
        k = k + 1;
    }
    assert(results@.take(results.len() as int) =~= results@);
    n
}

/// The number of positions in a list of batches.
pub open spec fn size_sum(bs: Seq<Seq<int>>) -> nat
    decreases bs.len(),
{
    if bs.len() == 0 {
        0
    } else {
        size_sum(bs.drop_last()) + bs.last().len()
    }
}

/// Counting positions from the front.
proof fn lemma_size_sum_front(bs: Seq<Seq<int>>)
    requires
        bs.len() > 0,
    ensures
        size_sum(bs) == bs[0].len() + size_sum(bs.drop_first()),
    decreases bs.len(),
{
    if bs.len() > 1 {
        lemma_size_sum_front(bs.drop_last());
        assert(bs.drop_last().drop_first() =~= bs.drop_first().drop_last());
    } else {
        assert(bs.drop_first() =~= Seq::<Seq<int>>::empty());
        assert(bs.drop_last() =~= Seq::<Seq<int>>::empty());
    }
}

/// The batches hold no more positions than there are entries.
proof fn lemma_batches_size(items: Seq<TrendingItem>)
    ensures
        size_sum(batches_of(items)) <= items.len(),
{
    lemma_batches_cover_content(items);
    lemma_flatten_len(batches_of(items));
    lemma_content_indices_len(items);
}

/// The batches one after the other are as long as their sizes together.
proof fn lemma_flatten_len(bs: Seq<Seq<int>>)
    ensures
        flatten(bs).len() == size_sum(bs),
    decreases bs.len(),
{
    if bs.len() > 0 {
        lemma_flatten_len(bs.drop_last());
    }
}

/// There are no more entries with content than entries.
proof fn lemma_content_indices_len(items: Seq<TrendingItem>)
    ensures
        content_indices(items).len() <= items.len(),
    decreases items.len(),
{
    if items.len() > 0 {
        lemma_content_indices_len(items.drop_last());
    }
}

/// What a summarizing run asks for next.
#[derive(Debug)]
pub enum SummaryAction {
    /// Summarize the entry at this position alone.
    Single(usize),
    /// Summarize the entries at these positions in one request.
    Batch(Vec<usize>),
    /// Nothing is left to summarize.
    Done,
}

/// The state of a summarizing run: its batches, the batch to do next, the
/// positions of a failed batch still to summarize one by one, and how many
/// summaries were made.
pub struct SummaryRun {
    batches: Vec<Vec<usize>>,
    next: usize,
    retry: Vec<usize>,
    summarized: usize,
}

/// The plain value of a summarizing run.
pub struct RunModel {
    pub batches: Seq<Seq<int>>,
    pub next: int,
    pub retry: Seq<int>,
    pub summarized: nat,
}

impl View for SummaryRun {
    type V = RunModel;

    closed spec fn view(&self) -> RunModel {
        RunModel {
            batches: batches_view(self.batches@),
            next: self.next as int,
            retry: idx_view(self.retry@),
            summarized: self.summarized as nat,
        }
    }
}

/// The entry a run summarizes alone next: the first of a failed batch, else
/// the next batch when it holds one entry.
pub open spec fn next_single(m: RunModel) -> Option<int> {
    if m.retry.len() > 0 {
        Some(m.retry[0])
    } else if 0 <= m.next < m.batches.len() && m.batches[m.next].len() == 1 {
        Some(m.batches[m.next][0])
    } else {
        None
    }
}

/// The batch a run asks for next: the next batch when no failed batch is
/// pending and it holds several entries.
pub open spec fn next_batch(m: RunModel) -> Option<Seq<int>> {
    if m.retry.len() == 0 && 0 <= m.next < m.batches.len() && m.batches[m.next].len() != 1 {
        Some(m.batches[m.next])
    } else {
        None
    }
}

/// A copy of a list of positions.
fn copy_positions(v: &Vec<usize>) -> (r: Vec<usize>)
    ensures
        r@ == v@,
{
    let mut r: Vec<usize> = Vec::new();
    let mut i: usize = 0;
    while i < v.len()
        invariant
            i <= v.len(),
            r@ == v@.take(i as int),
        decreases v.len() - i,
    {
        r.push(v[i]);
        assert(r@ =~= v@.take(i + 1));
        i = i + 1;
    }
    assert(v@.take(v.len() as int) =~= v@);
    r
}

/// The positions a run has still to ask for, in order: those of the failed
/// batch being retried, then those of the batches not yet asked for.
pub open spec fn pending(m: RunModel) -> Seq<int> {
    m.retry + flatten(m.batches.skip(m.next))
}

/// The positions of the batches, counted from the first batch.
proof fn lemma_flatten_front(bs: Seq<Seq<int>>)
    requires
        bs.len() > 0,
    ensures
        flatten(bs) == bs[0] + flatten(bs.drop_first()),
    decreases bs.len(),
{
    if bs.len() > 1 {
        lemma_flatten_front(bs.drop_last());
        assert(bs.drop_last().drop_first() =~= bs.drop_first().drop_last());
        assert(flatten(bs.drop_first()) == flatten(bs.drop_first().drop_last()) + bs.drop_first().last());
        assert(bs.drop_first().last() == bs.last());
        assert(flatten(bs) =~= bs[0] + flatten(bs.drop_first()));
    } else {
        assert(bs.drop_first() =~= Seq::<Seq<int>>::empty());
        assert(bs.drop_last() =~= Seq::<Seq<int>>::empty());
        assert(flatten(Seq::<Seq<int>>::empty()) == Seq::<int>::empty());
        assert(flatten(bs) =~= bs[0] + flatten(bs.drop_first()));
    }
}

/// The positions still to ask for, once the next batch is taken off.
proof fn lemma_pending_step(m: RunModel)
    requires
        0 <= m.next < m.batches.len(),
    ensures
        flatten(m.batches.skip(m.next)) == m.batches[m.next] + flatten(m.batches.skip(m.next + 1)),
{
    let t = m.batches.skip(m.next);
    lemma_flatten_front(t);
    assert(t.drop_first() =~= m.batches.skip(m.next + 1));
}

impl SummaryRun {
    /// Whether the counts of the run stay within bounds: the summaries made
    /// and the positions still to do are no more than the positions of all
    /// batches.
    pub closed spec fn wf(&self) -> bool {
        let bs = batches_view(self.batches@);
        &&& self.next <= self.batches.len()
        &&& size_sum(bs) <= usize::MAX
        &&& self.summarized + self.retry.len() + size_sum(bs.skip(self.next as int)) <= size_sum(bs)
    }

    /// A run over the batches of `items`, none done yet.
    pub fn new(items: &[TrendingItem]) -> (r: SummaryRun)
        ensures
            r.wf(),
            r@.batches == batches_of(items@),
            r@.next == 0,
            r@.retry == Seq::<int>::empty(),
            r@.summarized == 0,
            pending(r@) == content_indices(items@),
    {
        let batches = group_indices(items);
        proof {
            lemma_batches_size(items@);
            assert(batches_view(batches@).skip(0) =~= batches_view(batches@));
        }
        let r = SummaryRun { batches, next: 0, retry: Vec::new(), summarized: 0 };
        assert(r@.retry =~= Seq::<int>::empty());
        assert(size_sum(batches_view(r.batches@)) <= items.len());
        assert(r.retry.len() == 0);
        assert(batches_view(r.batches@).skip(0) =~= batches_view(r.batches@));
        proof {
            lemma_batches_cover_content(items@);
            assert(pending(r@) =~= flatten(batches_of(items@)));
        }
        r
    }

    /// How many batches the run has.
    pub fn batch_count(&self) -> (r: usize)
        ensures
            r == self@.batches.len(),
    {
        self.batches.len()
    }

    /// How many batches the run has finished asking for.
    pub fn position(&self) -> (r: usize)
        ensures
            r == self@.next,
    {
        self.next
    }

    /// Whether the run is summarizing the entries of a failed batch one by one.
    pub fn retrying(&self) -> (r: bool)
        ensures
            r == (self@.retry.len() > 0),
    {
        self.retry.len() > 0
    }

    /// How many summaries the run has made.
    pub fn summarized(&self) -> (r: usize)
        ensures
            r == self@.summarized,
    {
        self.summarized
    }

    /// What the run asks for next.
    pub fn next_action(&self) -> (r: SummaryAction)
        ensures
            match r {
                SummaryAction::Single(i) => next_single(self@) == Some(i as int),
                SummaryAction::Batch(b) => next_single(self@) is None && next_batch(self@) == Some(
                    idx_view(b@),
                ),
                SummaryAction::Done => next_single(self@) is None && next_batch(self@) is None,
            },
            match r {
                SummaryAction::Single(i) => pending(self@).len() > 0 && pending(self@)[0] == i,
                SummaryAction::Batch(b) => idx_view(b@) == pending(self@).take(b.len() as int),
                SummaryAction::Done => self@.next == self@.batches.len() ==> pending(self@).len() == 0,
            },
    {
        let ghost m = self@;
        proof {
            if m.retry.len() == 0 && 0 <= m.next < m.batches.len() {
                lemma_pending_step(m);
                assert(pending(m) =~= m.batches[m.next] + flatten(m.batches.skip(m.next + 1)));
                assert(pending(m).take(m.batches[m.next].len() as int) =~= m.batches[m.next]);
            }
            if m.retry.len() == 0 && m.next == m.batches.len() {
                assert(m.batches.skip(m.next) =~= Seq::<Seq<int>>::empty());
                assert(flatten(Seq::<Seq<int>>::empty()) == Seq::<int>::empty());
            }
        }
        if self.retry.len() > 0 {
            SummaryAction::Single(self.retry[0])
        } else if self.next < self.batches.len() {
            if self.batches[self.next].len() == 1 {
                SummaryAction::Single(self.batches[self.next][0])
            } else {
                SummaryAction::Batch(copy_positions(&self.batches[self.next]))
            }
        } else {
            SummaryAction::Done
        }
    }

    /// Records the outcome of summarizing the entry the run asked for alone:
    /// its summary is set when there is one, and the run moves on.
    pub fn single_done(&mut self, items: &mut [TrendingItem], summary: Option<String>)
        requires
            old(self).wf(),
            match next_single(old(self)@) {
                Some(i) => 0 <= i < old(items).len(),
                None => false,
            },
        ensures
            final(self).wf(),
            final(self)@.batches == old(self)@.batches,
            old(self)@.retry.len() > 0 ==> final(self)@.next == old(self)@.next && final(self)@.retry
                == old(self)@.retry.drop_first(),
            old(self)@.retry.len() == 0 ==> final(self)@.next == old(self)@.next + 1 && final(self)@.retry
                == old(self)@.retry,
            match next_single(old(self)@) {
                Some(i) => match summary {
                    Some(s) => final(items)@ == old(items)@.update(i, with_summary(old(items)@[i], s))
                        && final(self)@.summarized == old(self)@.summarized + 1,
                    None => final(items)@ == old(items)@ && final(self)@.summarized
                        == old(self)@.summarized,
                },
                None => true,
            },
            pending(final(self)@) == pending(old(self)@).drop_first(),
            same_but_summaries(old(items)@, final(items)@),
    {
        let ghost bs = batches_view(self.batches@);
        let ghost m = self@;
        proof {
            if m.retry.len() == 0 {
                lemma_pending_step(m);
                assert(m.retry + flatten(m.batches.skip(m.next)) =~= flatten(m.batches.skip(m.next)));
                assert(m.batches[m.next].len() == 1);
                assert(pending(m).drop_first() =~= flatten(m.batches.skip(m.next + 1)));
            } else {
                assert(pending(m).drop_first() =~= m.retry.drop_first() + flatten(m.batches.skip(m.next)));
            }
        }
        let from_retry = self.retry.len() > 0;
        let i = if from_retry {
            self.retry[0]
        } else {
            self.batches[self.next][0]
        };
        proof {
            if !from_retry {
                assert(bs.skip(self.next as int).drop_first() =~= bs.skip(self.next + 1));
                assert(bs.skip(self.next as int)[0] == bs[self.next as int]);
                lemma_size_sum_front(bs.skip(self.next as int));
            }
        }
        proof {
            lemma_same_but_summaries_chain(items@, items@, items@);
        }
        match summary {
            Some(s) => {
                proof {
                    lemma_set_summary_keeps(items@, i as int, s);
                }
                set_summary(items, i, s);
                self.summarized = self.summarized + 1;
            },
            None => {},
        }
        if from_retry {
            let ghost before = self.retry@;
            self.retry.remove(0);
            assert(idx_view(self.retry@) =~= idx_view(before).drop_first());
        } else {
            self.next = self.next + 1;
        }
    }

    /// Records the outcome of the batch the run asked for: with its (id,
    /// summary) pairs, each summary goes to the first entry with its id;
    /// without them, the batch's entries are to be summarized one by one.
    /// The run moves on to the next batch.
    pub fn batch_done(&mut self, items: &mut [TrendingItem], results: Option<Vec<(String, String)>>)
        requires
            old(self).wf(),
            next_batch(old(self)@) is Some,
            match results {
                Some(v) => v.len() == old(self)@.batches[old(self)@.next].len(),
                None => true,
            },
        ensures
            final(self).wf(),
            final(self)@.batches == old(self)@.batches,
            final(self)@.next == old(self)@.next + 1,
            match results {
                Some(v) => {
                    &&& final(items)@ == apply_results(old(items)@, v@).0
                    &&& final(self)@.summarized == old(self)@.summarized + apply_results(old(items)@, v@).1
                    &&& final(self)@.retry == old(self)@.retry
                },
                None => {
                    &&& final(items)@ == old(items)@
                    &&& final(self)@.summarized == old(self)@.summarized
                    &&& final(self)@.retry == old(self)@.batches[old(self)@.next]
                },
            },
            results is Some ==> pending(final(self)@) == pending(old(self)@).skip(
                old(self)@.batches[old(self)@.next].len() as int,
            ),
            results is None ==> pending(final(self)@) == pending(old(self)@),
            same_but_summaries(old(items)@, final(items)@),
    {
        let ghost bs = batches_view(self.batches@);
        let ghost m = self@;
        proof {
            lemma_pending_step(m);
            assert(pending(m) =~= m.batches[m.next] + flatten(m.batches.skip(m.next + 1)));
            assert(pending(m).skip(m.batches[m.next].len() as int) =~= flatten(m.batches.skip(m.next + 1)));
        }
        proof {
            assert(bs.skip(self.next as int).drop_first() =~= bs.skip(self.next + 1));
            assert(bs.skip(self.next as int)[0] == bs[self.next as int]);
            lemma_size_sum_front(bs.skip(self.next as int));
        }
        proof {
            lemma_same_but_summaries_chain(items@, items@, items@);
        }
        match results {
            Some(v) => {
                proof {
                    lemma_apply_results_keeps(items@, v@);
                }
                let n = apply_batch(items, &v);
                self.summarized = self.summarized + n;
            },
            None => {
                self.retry = copy_positions(&self.batches[self.next]);
            },
        }
        self.next = self.next + 1;
    }
}

// ------------------------------------------------------------------
// The API key
// ------------------------------------------------------------------

/// Why the DeepSeek API key could not be read.
#[derive(Debug)]
pub enum ApiKeyError {
    /// `security` could not be run.
    NotRun,
    /// `security` found no key, with this error output.
    NotFound { stderr: String },
    /// `security` printed something that is not UTF-8.
    NotUtf8,
    /// The key in the Keychain is empty.
    Empty,
}

impl ApiKeyError {
    /// The message shown for this error.
    pub fn message(&self) -> (r: String)
        ensures
            match self {
                ApiKeyError::NotRun => r@ == "调用 security CLI 失败（需要 macOS Keychain）"@,
                ApiKeyError::NotFound { stderr } => r@
                    == "未找到 DeepSeek API key。请通过环境变量 DEEPSEEK_API_KEY 设置，或添加到 macOS Keychain: security add-generic-password -s DEEPSEEK_API_KEY -a deepseek -w 'your-key'\nsecurity 错误: "@
                    + trim(stderr@),
                ApiKeyError::NotUtf8 => r@ == "security 输出不是有效 UTF-8"@,
                ApiKeyError::Empty => r@ == "Keychain 中的 DEEPSEEK_API_KEY 为空"@,
            },
    {
        match self {
            ApiKeyError::NotRun => string_of(&chars_of("调用 security CLI 失败（需要 macOS Keychain）")),
            ApiKeyError::NotFound { stderr } => {
                let mut v = chars_of(
                    "未找到 DeepSeek API key。请通过环境变量 DEEPSEEK_API_KEY 设置，或添加到 macOS Keychain: security add-generic-password -s DEEPSEEK_API_KEY -a deepseek -w 'your-key'\nsecurity 错误: ",
                );
                let e = trim_chars(&chars_of(stderr.as_str()));
                push_all(&mut v, &e);
                string_of(&v)
            },
            ApiKeyError::NotUtf8 => string_of(&chars_of("security 输出不是有效 UTF-8")),
            ApiKeyError::Empty => string_of(&chars_of("Keychain 中的 DEEPSEEK_API_KEY 为空")),
        }
    }
}

/// The API key from the `DEEPSEEK_API_KEY` environment variable, when it is
/// set and not empty (taken as it is).
pub fn api_key_from_env(value: Option<String>) -> (r: Option<String>)
    ensures
        match value {
            Some(v) => if v@.len() > 0 {
                r == Some(v)
            } else {
                r is None
            },
            None => r is None,
        },
{
    match value {
        Some(v) => if v.as_str().is_empty() {
            None
        } else {
            Some(v)
        },
        None => None,
    }
}

/// The arguments of `security` that read the DeepSeek API key.
pub fn api_key_security_args() -> (r: Vec<String>)
    ensures
        crate::cache::strs_view(r@) == seq!["find-generic-password"@, "-s"@, "DEEPSEEK_API_KEY"@, "-w"@],
{
    let mut r: Vec<String> = Vec::new();
    r.push("find-generic-password".to_owned());
    r.push("-s".to_owned());
    r.push("DEEPSEEK_API_KEY".to_owned());
    r.push("-w".to_owned());
    assert(crate::cache::strs_view(r@) =~= seq![
        "find-generic-password"@,
        "-s"@,
        "DEEPSEEK_API_KEY"@,
        "-w"@,
    ]);
    r
}

/// The API key `security` printed: its output as UTF-8, trimmed, when it
/// succeeded and that is not empty.
pub fn api_key_from_security(success: bool, stdout: Vec<u8>, stderr: &[u8]) -> (r: Result<
    String,
    ApiKeyError,
>)
    ensures
        !success ==> (r matches Err(ApiKeyError::NotFound { stderr: e }) && e@
            == crate::text::spec_utf8_lossy(stderr@)),
        success && !vstd::utf8::valid_utf8(stdout@) ==> r matches Err(ApiKeyError::NotUtf8),
        success && vstd::utf8::valid_utf8(stdout@) && trim(vstd::utf8::decode_utf8(stdout@)).len() == 0
            ==> r matches Err(ApiKeyError::Empty),
        success && vstd::utf8::valid_utf8(stdout@) && trim(vstd::utf8::decode_utf8(stdout@)).len() > 0
            ==> (r matches Ok(v) && v@ == trim(vstd::utf8::decode_utf8(stdout@))),
{
    if !success {
        return Err(ApiKeyError::NotFound { stderr: crate::text::utf8_lossy(stderr) });
    }
    match crate::text::utf8_text(stdout) {
        None => Err(ApiKeyError::NotUtf8),
        Some(text) => {
            let t = trim_chars(&chars_of(text.as_str()));
            if t.len() == 0 {
                Err(ApiKeyError::Empty)
            } else {
                Ok(string_of(&t))
            }
        },
    }
}

/// The batches one after the other.
pub open spec fn flatten(bs: Seq<Seq<int>>) -> Seq<int>
    decreases bs.len(),
{
    if bs.len() == 0 {
        seq![]
    } else {
        flatten(bs.drop_last()) + bs.last()
    }
}

/// The positions of the entries with fetched content, in order.
pub open spec fn content_indices(items: Seq<TrendingItem>) -> Seq<int>
    decreases items.len(),
{
    if items.len() == 0 {
        seq![]
    } else if content_len(items.last()) > 0 {
        content_indices(items.drop_last()).push(items.len() - 1)
    } else {
        content_indices(items.drop_last())
    }
}

/// The positions a run asks for are those of entries with content: each is
/// a position of the list whose entry has content.
pub proof fn lemma_content_positions_have_content(items: Seq<TrendingItem>, k: int)
    requires
        0 <= k < content_indices(items).len(),
    ensures
        0 <= content_indices(items)[k] < items.len(),
        content_len(items[content_indices(items)[k]]) > 0,
    decreases items.len(),
{
    let p = content_indices(items.drop_last());
    if k < p.len() {
        lemma_content_positions_have_content(items.drop_last(), k);
        assert(content_indices(items)[k] == p[k]);
        assert(items[p[k]] == items.drop_last()[p[k]]);
    } else {
        assert(content_indices(items)[k] == items.len() - 1);
    }
}

/// The bytes of content of the entries at the positions of a batch.
pub open spec fn batch_bytes(items: Seq<TrendingItem>, b: Seq<int>) -> nat
    decreases b.len(),
{
    if b.len() == 0 {
        0
    } else {
        batch_bytes(items, b.drop_last()) + content_len(items[b.last()])
    }
}

/// Whether a batch is well formed: not empty, and within the limit unless
/// it holds a single entry.
pub open spec fn batch_fits(items: Seq<TrendingItem>, b: Seq<int>) -> bool {
    b.len() > 0 && (b.len() == 1 || batch_bytes(items, b) <= MAX_BATCH_CONTENT_CHARS)
}

/// The bytes of a batch do not change when entries are added after it.
proof fn lemma_batch_bytes_prefix(items: Seq<TrendingItem>, n: int, b: Seq<int>)
    requires
        0 <= n <= items.len(),
        forall|j: int| 0 <= j < b.len() ==> 0 <= #[trigger] b[j] < n,
    ensures
        batch_bytes(items, b) == batch_bytes(items.take(n), b),
    decreases b.len(),
{
    if b.len() > 0 {
        lemma_batch_bytes_prefix(items, n, b.drop_last());
        assert(items.take(n)[b.last()] == items[b.last()]);
    }
}

/// Appending a batch to the list appends its positions.
proof fn lemma_flatten_push(bs: Seq<Seq<int>>, b: Seq<int>)
    ensures
        flatten(bs.push(b)) == flatten(bs) + b,
{
    assert(bs.push(b).drop_last() =~= bs);
}

/// What holds of the batches after each entry: together with the open batch
/// they hold the positions with content in order; each closed batch is well
/// formed; the open batch's bytes are counted, and it fits unless single.
proof fn lemma_scan(items: Seq<TrendingItem>)
    ensures
        ({
            let st = batch_scan(items);
            &&& flatten(st.0) + st.1 == content_indices(items)
            &&& forall|k: int| 0 <= k < st.0.len() ==> #[trigger] batch_fits(items, st.0[k])
            &&& st.2 == batch_bytes(items, st.1)
            &&& (st.1.len() <= 1 || st.2 <= MAX_BATCH_CONTENT_CHARS)
            &&& forall|k: int, j: int|
                0 <= k < st.0.len() && 0 <= j < st.0[k].len() ==> 0 <= #[trigger] st.0[k][j] < items.len()
            &&& forall|j: int| 0 <= j < st.1.len() ==> 0 <= #[trigger] st.1[j] < items.len()
        }),
    decreases items.len(),
{
    if items.len() > 0 {
        let p = items.drop_last();
        let n = items.len() - 1;
        lemma_scan(p);
        let st = batch_scan(p);
        let len = content_len(items.last());
        assert(items.take(n) =~= p);
        assert forall|k: int| 0 <= k < st.0.len() implies batch_bytes(items, st.0[k]) == batch_bytes(
            p,
            st.0[k],
        ) by {
            assert forall|j: int| 0 <= j < st.0[k].len() implies 0 <= #[trigger] st.0[k][j] < n by {
                assert(0 <= st.0[k][j] < p.len());
            }
            lemma_batch_bytes_prefix(items, n, st.0[k]);
        }
        assert forall|j: int| 0 <= j < st.1.len() implies 0 <= #[trigger] st.1[j] < n by {
            assert(0 <= st.1[j] < p.len());
        }
        lemma_batch_bytes_prefix(items, n, st.1);
        assert(items[n] == items.last());
        if len == 0 {
            assert(content_indices(items) == content_indices(p));
            assert forall|k: int| 0 <= k < st.0.len() implies #[trigger] batch_fits(items, st.0[k]) by {
                assert(batch_fits(p, st.0[k]));
            }
        } else if starts_new_batch(st.1, st.2, len) && st.1.len() > 0 {
            let nst = batch_step(st, n, len);
            lemma_flatten_push(st.0, st.1);
            assert(flatten(nst.0) + nst.1 =~= (flatten(st.0) + st.1).push(n));
            assert(seq![n].drop_last() =~= Seq::<int>::empty());
            assert(batch_bytes(items, Seq::<int>::empty()) == 0);
            assert(seq![n].last() == n);
            assert(batch_bytes(items, seq![n]) == len);
            assert forall|k: int| 0 <= k < nst.0.len() implies #[trigger] batch_fits(items, nst.0[k]) by {
                if k < st.0.len() {
                    assert(batch_fits(p, st.0[k]));
                }
            }
        } else {
            let nst = batch_step(st, n, len);
            assert(flatten(nst.0) + nst.1 =~= (flatten(st.0) + st.1).push(n));
            assert(st.1.push(n).drop_last() =~= st.1);
            assert forall|k: int| 0 <= k < st.0.len() implies #[trigger] batch_fits(items, st.0[k]) by {
                assert(batch_fits(p, st.0[k]));
            }
        }
    }
}

/// Every entry with fetched content is in exactly one batch, and no other
/// entry is in any: the batches one after the other are the positions of the
/// entries with content, in order.
pub proof fn lemma_batches_cover_content(items: Seq<TrendingItem>)
    ensures
        flatten(batches_of(items)) == content_indices(items),
{
    lemma_scan(items);
    let st = batch_scan(items);
    if st.1.len() > 0 {
        lemma_flatten_push(st.0, st.1);
    } else {
        assert(st.1 =~= Seq::<int>::empty());
        assert(flatten(st.0) + st.1 =~= flatten(st.0));
    }
}

/// Every batch holds at least one entry, and a batch of several entries
/// holds at most `MAX_BATCH_CONTENT_CHARS` bytes of content.
pub proof fn lemma_batches_fit(items: Seq<TrendingItem>)
    ensures
        forall|k: int| 0 <= k < batches_of(items).len() ==> #[trigger] batch_fits(items, batches_of(items)[k]),
{
    lemma_scan(items);
    let st = batch_scan(items);
    assert forall|k: int| 0 <= k < batches_of(items).len() implies #[trigger] batch_fits(
        items,
        batches_of(items)[k],
    ) by {
        if k < st.0.len() {
            assert(batches_of(items)[k] == st.0[k]);
        }
    }
}

} // verus!
