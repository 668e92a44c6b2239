//! Lobsters stories.
use vstd::prelude::*;
use crate::item::{items_view, ItemModel, TrendingItem};
use crate::json::{JsonValue, JsonView};
use crate::source::first_n;
use crate::text::{chars_of, push_str, string_of};

verus! {

/// The entry of one Lobsters story: it needs a short id, a title and a URL
/// (which may be empty for self posts); the score is kept when present.
pub open spec fn lobsters_story_of(item: JsonView, source: Seq<char>) -> Option<ItemModel> {
    match (item.member_str("short_id"@), item.member_str("title"@), item.member_str("url"@)) {
        (Some(short_id), Some(title), Some(url)) => Some(
            ItemModel {
                source,
                id: "story_"@ + short_id,
                title,
                url,
                score: item.member_u64("score"@),
                external_content: None,
                summary: None,
            },
        ),
        _ => None,
    }
}

/// The entries of the stories that have one, in order.
pub open spec fn lobsters_stories_of(data: Seq<JsonValue>, source: Seq<char>) -> Seq<ItemModel>
    decreases data.len(),
{
    if data.len() == 0 {
        seq![]
    } else {
        match lobsters_story_of(data.last()@, source) {
            Some(it) => lobsters_stories_of(data.drop_last(), source).push(it),
            None => lobsters_stories_of(data.drop_last(), source),
        }
    }
}

/// The entry of one Lobsters story.
fn parse_lobsters_story(item: &JsonValue, source: &str) -> (r: Option<TrendingItem>)
    ensures
        r matches Some(it) ==> lobsters_story_of(item@, source@) == Some(it@),
        r is None ==> lobsters_story_of(item@, source@) is None,
{
    let short_id = match item.get_str("short_id") {
        Some(s) => s,
        None => {
            return None;
        },
    };
    let title = match item.get_str("title") {
        Some(t) => t,
        None => {
            return None;
        },
    };
    let url = match item.get_str("url") {
        Some(u) => u,
        None => {
            return None;
        },
    };
    let mut idv = chars_of("story_");
    push_str(&mut idv, short_id);
    Some(
        TrendingItem {
            source: string_of(&chars_of(source)),
            id: string_of(&idv),
            title: string_of(&chars_of(title)),
            url: string_of(&chars_of(url)),
            score: item.get_u64("score"),
            external_content: None,
            summary: None,
        },
    )
}

/// The entries of the Lobsters stories of `/hottest.json`, skipping those
/// without a short id, title or URL.
pub fn parse_stories(data: &Vec<JsonValue>, source: &str) -> (r: Vec<TrendingItem>)
    ensures
        items_view(r@) == lobsters_stories_of(data@, source@),
{
    let mut r: Vec<TrendingItem> = Vec::new();
    let mut i: usize = 0;
    while i < data.len()
        invariant
            i <= data.len(),
            items_view(r@) == lobsters_stories_of(data@.take(i as int), source@),
        decreases data.len() - i,
    {
        proof {
            assert(data@.take(i + 1).drop_last() =~= data@.take(i as int));
            assert(data@.take(i + 1).last() == data@[i as int]);
        }
        match parse_lobsters_story(&data[i], source) {
            Some(it) => {
                let ghost before = items_view(r@);
                r.push(it);
                assert(items_view(r@) =~= before.push(it@));
            },
            None => {},
        }
        i = i + 1;
    }
    assert(data@.take(data.len() as int) =~= data@);
    r
}

/// The first `count` entries of the Lobsters hottest list.
pub fn hottest_items(data: &Vec<JsonValue>, count: usize) -> (r: Vec<TrendingItem>)
    ensures
        items_view(r@) == first_n(lobsters_stories_of(data@, "lobsters"@), count as nat),
{
    let mut all = parse_stories(data, "lobsters");
    if all.len() > count {
        let ghost before = all@;
        all.truncate(count);
        assert(items_view(all@) =~= items_view(before).take(count as int));
    }
    all
}

/// The entry of a Lobsters story takes its fields from the story's own
/// members, whatever else it holds: the URL is its `url` (not its
/// discussion page), the title its `title`, the id `story_` and its
/// `short_id`, the score its `score`; and it is made exactly when those three
/// text members are present.
pub proof fn lemma_lobsters_entry_fields(item: JsonView, source: Seq<char>)
    ensures
        lobsters_story_of(item, source) is Some <==> (item.member_str("short_id"@) is Some
            && item.member_str("title"@) is Some && item.member_str("url"@) is Some),
        lobsters_story_of(item, source) matches Some(it) ==> {
            &&& it.url == item.member_str("url"@)->0
            &&& it.title == item.member_str("title"@)->0
            &&& it.id == "story_"@ + item.member_str("short_id"@)->0
            &&& it.source == source
            &&& it.score == item.member_u64("score"@)
            &&& it.external_content is None
            &&& it.summary is None
        },
{
}

} // verus!
