//! The unified entry that every source produces, and the content fetched
//! behind its link.
use vstd::prelude::*;

verus! {

/// The kind of content behind an entry's link.
#[derive(Debug, Clone, Copy, PartialEq, Eq, Structural)]
pub enum ContentType {
    /// The README of a GitHub repository.
    GitHubReadme,
    /// A GitHub issue.
    GitHubIssue,
    /// An ordinary web article.
    WebArticle,
}

/// Content fetched from behind an entry's link.
#[derive(Debug)]
pub struct ExternalContent {
    pub url: String,
    pub content_type: ContentType,
    pub text: String,
    pub word_count: usize,
}

/// The plain value of an `ExternalContent`.
pub struct ContentModel {
    pub url: Seq<char>,
    pub content_type: ContentType,
    pub text: Seq<char>,
    pub word_count: usize,
}

impl View for ExternalContent {
    type V = ContentModel;

    open spec fn view(&self) -> ContentModel {
        ContentModel {
            url: self.url@,
            content_type: self.content_type,
            text: self.text@,
            word_count: self.word_count,
        }
    }
}

impl Clone for ExternalContent {
    fn clone(&self) -> (r: Self)
        ensures
            r == *self,
    {
        ExternalContent {
            url: self.url.clone(),
            content_type: self.content_type,
            text: self.text.clone(),
            word_count: self.word_count,
        }
    }
}

/// One entry of any source.
#[derive(Debug)]
pub struct TrendingItem {
    pub source: String,
    pub id: String,
    pub title: String,
    pub url: String,
    pub score: Option<u64>,
    pub external_content: Option<ExternalContent>,
    /// A summary of the entry's content, for consumption by AI tools.
    pub summary: Option<String>,
}

/// The plain value of a `TrendingItem`.
pub struct ItemModel {
    pub source: Seq<char>,
    pub id: Seq<char>,
    pub title: Seq<char>,
    pub url: Seq<char>,
    pub score: Option<u64>,
    pub external_content: Option<ContentModel>,
    pub summary: Option<Seq<char>>,
}

/// The plain value of an optional string.
pub open spec fn opt_str(s: Option<String>) -> Option<Seq<char>> {
    match s {
        Some(x) => Some(x@),
        None => None,
    }
}

/// The plain value of optional content.
pub open spec fn opt_content(c: Option<ExternalContent>) -> Option<ContentModel> {
    match c {
        Some(x) => Some(x@),
        None => None,
    }
}

impl View for TrendingItem {
    type V = ItemModel;

    open spec fn view(&self) -> ItemModel {
        ItemModel {
            source: self.source@,
            id: self.id@,
            title: self.title@,
            url: self.url@,
            score: self.score,
            external_content: opt_content(self.external_content),
            summary: opt_str(self.summary),
        }
    }
}

/// The plain values of a list of entries.
pub open spec fn items_view(items: Seq<TrendingItem>) -> Seq<ItemModel> {
    items.map_values(|i: TrendingItem| i@)
}

/// A copy of an optional string.
pub fn clone_opt_string(s: &Option<String>) -> (r: Option<String>)
    ensures
        r == *s,
{
    match s {
        Some(x) => Some(x.clone()),
        None => None,
    }
}

impl Clone for TrendingItem {
    fn clone(&self) -> (r: Self)
        ensures
            r == *self,
    {
        TrendingItem {
            source: self.source.clone(),
            id: self.id.clone(),
            title: self.title.clone(),
            url: self.url.clone(),
            score: self.score,
            external_content: match &self.external_content {
                Some(c) => Some(c.clone()),
                None => None,
            },
            summary: clone_opt_string(&self.summary),
        }
    }
}

} // verus!
