//! Hacker News stories.
use vstd::prelude::*;
use crate::item::{items_view, ItemModel, TrendingItem};
use crate::source::first_n;
use crate::json::{JsonValue, JsonView};
use crate::text::{chars_of, str_eq, dec_chars, dec_digits, push_all, push_str, string_of};

verus! {

/// The entry of a Hacker News item: only a `story` with an id, a title and a
/// non-empty URL is kept (Ask HN and other text posts have no URL, jobs and
/// polls are other types); the score is kept when present.
pub open spec fn story_of(data: JsonView) -> Option<ItemModel> {
    match (data.member_u64("id"@), data.member_str("title"@), data.member_str("url"@)) {
        (Some(id), Some(title), Some(url)) => if url.len() == 0 || data.member_str("type"@) != Some(
            "story"@,
        ) {
            None
        } else {
            Some(
                ItemModel {
                    source: "hacker_news"@,
                    id: "story_"@ + dec_digits(id as nat),
                    title,
                    url,
                    score: data.member_u64("score"@),
                    external_content: None,
                    summary: None,
                },
            )
        },
        _ => None,
    }
}

/// The entry of a Hacker News item, from the API's JSON.
pub fn parse_story(data: &JsonValue) -> (r: Option<TrendingItem>)
    ensures
        r matches Some(it) ==> story_of(data@) == Some(it@),
        r is None ==> story_of(data@) is None,
{
    let id = match data.get_u64("id") {
        Some(n) => n,
        None => {
            return None;
        },
    };
    let title = match data.get_str("title") {
        Some(t) => t,
        None => {
            return None;
        },
    };
    let url = match data.get_str("url") {
        Some(u) => u,
        None => {
            return None;
        },
    };
    let uv = chars_of(url);
    if uv.len() == 0 {
        return None;
    }
    match data.get_str("type") {
        Some(t) => {
            if !str_eq(t, "story") {
                return None;
            }
        },
        None => {
            return None;
        },
    }
    let mut idv = chars_of("story_");
    let d = dec_chars(id);
    push_all(&mut idv, &d);
    Some(
        TrendingItem {
            source: string_of(&chars_of("hacker_news")),
            id: string_of(&idv),
            title: string_of(&chars_of(title)),
            url: string_of(&uv),
            score: data.get_u64("score"),
            external_content: None,
            summary: None,
        },
    )
}

/// The API address of a Hacker News item.
pub fn item_api_url(id: u64) -> (r: String)
    ensures
        r@ == "https://hacker-news.firebaseio.com/v0/item/"@ + dec_digits(id as nat) + ".json"@,
{
    let mut v = chars_of("https://hacker-news.firebaseio.com/v0/item/");
    let d = dec_chars(id);
    push_all(&mut v, &d);
    push_str(&mut v, ".json");
    string_of(&v)
}

/// The ids of the stories to read: the first `count` of the top stories.
pub fn first_ids(ids: &Vec<u64>, count: usize) -> (r: Vec<u64>)
    ensures
        r@ == first_n(ids@, count as nat),
{
    let mut r: Vec<u64> = Vec::new();
    let mut i: usize = 0;
    while i < ids.len() && i < count
        invariant
            i <= ids.len(),
            i <= count,
            r@ == ids@.take(i as int),
        decreases ids.len() - i,
    {
        r.push(ids[i]);
        assert(r@ =~= ids@.take(i + 1));
        i = i + 1;
    }
    assert(first_n(ids@, count as nat) =~= ids@.take(i as int));
    r
}

/// The entries of the stories read, in order, from the replies to the item
/// requests; a request that failed has no reply.
pub open spec fn stories_of(replies: Seq<Option<JsonValue>>) -> Seq<ItemModel>
    decreases replies.len(),
{
    if replies.len() == 0 {
        seq![]
    } else {
        let p = stories_of(replies.drop_last());
        match replies.last() {
            Some(data) => match story_of(data@) {
                Some(it) => p.push(it),
                None => p,
            },
            None => p,
        }
    }
}

/// The entries of the stories read, from the replies to the item requests
/// in order (`None` for a request or reply that failed).
pub fn collect_stories(replies: &Vec<Option<JsonValue>>) -> (r: Vec<TrendingItem>)
    ensures
        items_view(r@) == stories_of(replies@),
{
    let mut r: Vec<TrendingItem> = Vec::new();
    let mut i: usize = 0;
    while i < replies.len()
        invariant
            i <= replies.len(),
            items_view(r@) == stories_of(replies@.take(i as int)),
        decreases replies.len() - i,
    {
        proof {
            assert(replies@.take(i + 1).drop_last() =~= replies@.take(i as int));
            assert(replies@.take(i + 1).last() == replies@[i as int]);
        }
        match &replies[i] {
            Some(data) => match parse_story(data) {
                Some(it) => {
                    let ghost before = items_view(r@);
                    r.push(it);
                    assert(items_view(r@) =~= before.push(it@));
                },
                None => {},
            },
            None => {},
        }
        i = i + 1;
    }
    assert(replies@.take(replies.len() as int) =~= replies@);
    r
}

/// The entry of a Hacker News item takes its fields from the item's own
/// members: it is made exactly for a `story` with a numeric id, a title and
/// a non-empty URL; its URL is the item's `url`, its title the item's
/// `title`, its id `story_` and the id's digits, its score the item's
/// `score`, and its source `hacker_news`.
pub proof fn lemma_hn_entry_fields(data: JsonView)
    ensures
        story_of(data) is Some <==> {
            &&& data.member_u64("id"@) is Some
            &&& data.member_str("title"@) is Some
            &&& data.member_str("url"@) is Some
            &&& data.member_str("url"@)->0.len() > 0
            &&& data.member_str("type"@) == Some("story"@)
        },
        story_of(data) matches Some(it) ==> {
            &&& it.url == data.member_str("url"@)->0
            &&& it.title == data.member_str("title"@)->0
            &&& it.id == "story_"@ + dec_digits(data.member_u64("id"@)->0 as nat)
            &&& it.source == "hacker_news"@
            &&& it.score == data.member_u64("score"@)
            &&& it.external_content is None
            &&& it.summary is None
        },
{
}

} // verus!
