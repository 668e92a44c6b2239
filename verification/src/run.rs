//! The decisions of one run of the program: which sources to ask, which
//! entries are new, whose content to fetch, and the counts it reports.
use vstd::prelude::*;
use crate::cache::{
    contains_str, dedup_strings, derefs, from_source, item_source_list, new_items, sources_of,
    str_pairs_view, strs_view, LastSeen,
};
use crate::item::TrendingItem;
use crate::output::{item_ids, SourceDiff};
use crate::text::{spec_to_lowercase, to_lowercase};

verus! {

// ------------------------------------------------------------------
// Sources
// ------------------------------------------------------------------

/// The sources asked when none is named.
pub open spec fn default_sources() -> Seq<Seq<char>> {
    seq!["github"@, "hn"@, "lobsters"@]
}

/// The newsletter sources added on Mondays.
pub open spec fn newsletter_sources() -> Seq<Seq<char>> {
    seq!["rust_weekly"@, "bytebytego"@, "ai_weekly"@]
}

/// The sources of a run: the named ones in lowercase, else the default
/// ones; on a Monday with none named, the newsletters too.
pub open spec fn selected_sources(named: Seq<Seq<char>>, monday: bool) -> Seq<Seq<char>> {
    if named.len() == 0 {
        if monday {
            default_sources() + newsletter_sources()
        } else {
            default_sources()
        }
    } else {
        named.map_values(|n: Seq<char>| spec_to_lowercase(n))
    }
}

/// The sources of a run, given the names passed with `--source` and whether
/// today is a Monday.
pub fn select_sources(named: &Vec<String>, monday: bool) -> (r: Vec<String>)
    ensures
        strs_view(r@) == selected_sources(strs_view(named@), monday),
{
    let mut r: Vec<String> = Vec::new();
    if named.len() == 0 {
        r.push("github".to_owned());
        r.push("hn".to_owned());
        r.push("lobsters".to_owned());
        if monday {
            r.push("rust_weekly".to_owned());
            r.push("bytebytego".to_owned());
            r.push("ai_weekly".to_owned());
        }
        assert(strs_view(r@) =~= selected_sources(strs_view(named@), monday));
    } else {
        let mut i: usize = 0;
        while i < named.len()
            invariant
                i <= named.len(),
                strs_view(r@) == strs_view(named@).map_values(|n: Seq<char>| spec_to_lowercase(n)).take(
                    i as int,
                ),
            decreases named.len() - i,
        {
            let ghost before = strs_view(r@);
            r.push(to_lowercase(named[i].as_str()));
            assert(strs_view(r@) =~= before.push(spec_to_lowercase(named@[i as int]@)));
            assert(strs_view(named@).map_values(|n: Seq<char>| spec_to_lowercase(n)).take(i + 1)
                =~= strs_view(named@).map_values(|n: Seq<char>| spec_to_lowercase(n)).take(
                i as int,
            ).push(spec_to_lowercase(named@[i as int]@)));
            i = i + 1;
        }
        assert(strs_view(named@).map_values(|n: Seq<char>| spec_to_lowercase(n)).take(
            named.len() as int,
        ) =~= strs_view(named@).map_values(|n: Seq<char>| spec_to_lowercase(n)));
    }
    r
}

/// What kind of source a name stands for.
#[derive(Debug, Clone, Copy, PartialEq, Eq, Structural)]
pub enum SourceKind {
    /// `github`: GitHub Trending.
    GitHub,
    /// `hn`: Hacker News.
    HackerNews,
    /// `lobsters`: Lobsters.
    Lobsters,
    /// `rust_weekly`, `bytebytego` or `ai_weekly`: a newsletter.
    Newsletter,
    /// Any other name.
    Unknown,
}

/// The kind of source a name stands for.
pub open spec fn kind_of(name: Seq<char>) -> SourceKind {
    if name == "github"@ {
        SourceKind::GitHub
    } else if name == "hn"@ {
        SourceKind::HackerNews
    } else if name == "lobsters"@ {
        SourceKind::Lobsters
    } else if name == "rust_weekly"@ || name == "bytebytego"@ || name == "ai_weekly"@ {
        SourceKind::Newsletter
    } else {
        SourceKind::Unknown
    }
}

/// The kind of source a name stands for.
pub fn source_kind(name: &str) -> (r: SourceKind)
    ensures
        r == kind_of(name@),
{
    if crate::text::str_eq(name, "github") {
        SourceKind::GitHub
    } else if crate::text::str_eq(name, "hn") {
        SourceKind::HackerNews
    } else if crate::text::str_eq(name, "lobsters") {
        SourceKind::Lobsters
    } else if crate::text::str_eq(name, "rust_weekly") || crate::text::str_eq(name, "bytebytego")
        || crate::text::str_eq(name, "ai_weekly") {
        SourceKind::Newsletter
    } else {
        SourceKind::Unknown
    }
}

// ------------------------------------------------------------------
// New entries
// ------------------------------------------------------------------

/// The ids of the entries of a run not seen on the previous run, in order.
pub fn new_item_ids(items: &[TrendingItem], last: &LastSeen) -> (r: Vec<String>)
    ensures
        strs_view(r@) == item_ids(new_items(items@, last@)),
{
    let mut r: Vec<String> = Vec::new();
    let mut i: usize = 0;
    while i < items.len()
        invariant
            i <= items.len(),
            strs_view(r@) == item_ids(new_items(items@.take(i as int), last@)),
        decreases items.len() - i,
    {
        proof {
            assert(items@.take(i + 1).drop_last() =~= items@.take(i as int));
            assert(items@.take(i + 1).last() == items@[i as int]);
            reveal(Seq::filter);
        }
        if !last.contains(items[i].source.as_str(), items[i].id.as_str()) {
            let ghost before = strs_view(r@);
            r.push(items[i].id.clone());
            assert(strs_view(r@) =~= before.push(items@[i as int].id@));
            assert(item_ids(new_items(items@.take(i + 1), last@)) =~= item_ids(
                new_items(items@.take(i as int), last@),
            ).push(items@[i as int].id@));
        }
        i = i + 1;
    }
    assert(items@.take(items.len() as int) =~= items@);
    r
}

/// Whether an entry's id is among `ids`.
pub open spec fn id_listed(it: TrendingItem, ids: Seq<Seq<char>>) -> bool {
    ids.contains(it.id@)
}

/// The entries whose id is among `ids`, in order.
pub open spec fn listed_items(items: Seq<TrendingItem>, ids: Seq<Seq<char>>) -> Seq<TrendingItem> {
    items.filter(|it: TrendingItem| id_listed(it, ids))
}

/// The entries whose id is not among `ids`, in order.
pub open spec fn unlisted_items(items: Seq<TrendingItem>, ids: Seq<Seq<char>>) -> Seq<TrendingItem> {
    items.filter(|it: TrendingItem| !id_listed(it, ids))
}

/// Splits the entries of a run into those whose id is among the new ids and
/// the others, each in order.
pub fn split_by_ids<'a>(items: &'a [TrendingItem], new_ids: &Vec<String>) -> (r: (
    Vec<&'a TrendingItem>,
    Vec<&'a TrendingItem>,
))
    ensures
        derefs(r.0@) == listed_items(items@, strs_view(new_ids@)),
        derefs(r.1@) == unlisted_items(items@, strs_view(new_ids@)),
{
    let ghost ids = strs_view(new_ids@);
    let mut new: Vec<&'a TrendingItem> = Vec::new();
    let mut old: Vec<&'a TrendingItem> = Vec::new();
    let mut i: usize = 0;
    while i < items.len()
        invariant
            i <= items.len(),
            ids == strs_view(new_ids@),
            derefs(new@) == listed_items(items@.take(i as int), ids),
            derefs(old@) == unlisted_items(items@.take(i as int), ids),
        decreases items.len() - i,
    {
        let item = &items[i];
        proof {
            assert(items@.take(i + 1).drop_last() =~= items@.take(i as int));
            assert(items@.take(i + 1).last() == items@[i as int]);
            reveal(Seq::filter);
        }
        if contains_str(new_ids, item.id.as_str()) {
            let ghost before = derefs(new@);
            new.push(item);
            assert(derefs(new@) =~= before.push(*item));
        } else {
            let ghost before = derefs(old@);
            old.push(item);
            assert(derefs(old@) =~= before.push(*item));
        }
        i = i + 1;
    }
    assert(items@.take(items.len() as int) =~= items@);
    (new, old)
}

// ------------------------------------------------------------------
// Per-source counts
// ------------------------------------------------------------------

/// How many entries of `source` have their id among `ids`.
pub open spec fn count_listed(items: Seq<TrendingItem>, source: Seq<char>, ids: Seq<Seq<char>>) -> nat {
    items.filter(|it: TrendingItem| from_source(it, source) && id_listed(it, ids)).len()
}

/// How many entries of `source` do not have their id among `ids`.
pub open spec fn count_unlisted(items: Seq<TrendingItem>, source: Seq<char>, ids: Seq<Seq<char>>) -> nat {
    items.filter(|it: TrendingItem| from_source(it, source) && !id_listed(it, ids)).len()
}

/// The per-source counts of a run: one record per source, in order of first
/// appearance, counting its new entries (id among `ids`) and old ones.
pub open spec fn by_source_counts(items: Seq<TrendingItem>, ids: Seq<Seq<char>>, r: Seq<(Seq<char>, SourceDiff)>) -> bool {
    &&& r.len() == sources_of(items).len()
    &&& forall|k: int|
        0 <= k < r.len() ==> {
            &&& #[trigger] r[k].0 == sources_of(items)[k]
            &&& r[k].1.new == count_listed(items, sources_of(items)[k], ids)
            &&& r[k].1.old == count_unlisted(items, sources_of(items)[k], ids)
        }
}

/// The counts of `source`: its entries with their id among `new_ids`, and
/// the others.
fn count_for_source(items: &[TrendingItem], source: &str, new_ids: &Vec<String>) -> (r: SourceDiff)
    ensures
        r.new == count_listed(items@, source@, strs_view(new_ids@)),
        r.old == count_unlisted(items@, source@, strs_view(new_ids@)),
{
    let ghost ids = strs_view(new_ids@);
    let mut new: usize = 0;
    let mut old: usize = 0;
    let mut i: usize = 0;
    while i < items.len()
        invariant
            i <= items.len(),
            ids == strs_view(new_ids@),
            new == count_listed(items@.take(i as int), source@, ids),
            old == count_unlisted(items@.take(i as int), source@, ids),
            new + old <= i,
        decreases items.len() - i,
    {
        proof {
            assert(items@.take(i + 1).drop_last() =~= items@.take(i as int));
            assert(items@.take(i + 1).last() == items@[i as int]);
            reveal(Seq::filter);
        }
        if crate::text::str_eq(items[i].source.as_str(), source) {
            if contains_str(new_ids, items[i].id.as_str()) {
                new = new + 1;
            } else {
                old = old + 1;
            }
        }
        i = i + 1;
    }
    assert(items@.take(items.len() as int) =~= items@);
    SourceDiff { new, old }
}

/// The per-source counts of a run, each source once, in order of first
/// appearance.
pub fn count_by_source(items: &[TrendingItem], new_ids: &Vec<String>) -> (r: Vec<(String, SourceDiff)>)
    ensures
        by_source_counts(items@, strs_view(new_ids@), crate::output::diffs_view(r@)),
{
    let all = item_source_list(items);
    let names = dedup_strings(&all);
    let mut r: Vec<(String, SourceDiff)> = Vec::new();
    let mut k: usize = 0;
    while k < names.len()
        invariant
            k <= names.len(),
            strs_view(names@) == sources_of(items@),
            r.len() == k,
            forall|j: int|
                0 <= j < k ==> {
                    &&& #[trigger] r@[j].0@ == sources_of(items@)[j]
                    &&& r@[j].1.new == count_listed(items@, sources_of(items@)[j], strs_view(new_ids@))
                    &&& r@[j].1.old == count_unlisted(items@, sources_of(items@)[j], strs_view(new_ids@))
                },
        decreases names.len() - k,
    {
        let d = count_for_source(items, names[k].as_str(), new_ids);
        let ghost before = r@;
        let name = names[k].clone();
        assert(name@ == sources_of(items@)[k as int]) by {
            assert(strs_view(names@)[k as int] == names@[k as int]@);
        }
        r.push((name, d));
        assert forall|j: int| 0 <= j < k + 1 implies {
            &&& #[trigger] r@[j].0@ == sources_of(items@)[j]
            &&& r@[j].1.new == count_listed(items@, sources_of(items@)[j], strs_view(new_ids@))
            &&& r@[j].1.old == count_unlisted(items@, sources_of(items@)[j], strs_view(new_ids@))
        } by {
            if j < k {
                assert(r@[j] == before[j]);
            }
        }
        k = k + 1;
    }
    r
}

/// The new and old counts of a source add up to its number of entries.
pub proof fn lemma_counts_add_up(items: Seq<TrendingItem>, source: Seq<char>, ids: Seq<Seq<char>>)
    ensures
        count_listed(items, source, ids) + count_unlisted(items, source, ids) == items.filter(
            |it: TrendingItem| from_source(it, source),
        ).len(),
    decreases items.len(),
{
    reveal(Seq::filter);
    if items.len() > 0 {
        lemma_counts_add_up(items.drop_last(), source, ids);
    }
}

// ------------------------------------------------------------------
// Content
// ------------------------------------------------------------------

/// What to do about the content of one entry.
#[derive(Debug, Clone, Copy, PartialEq, Eq, Structural)]
pub enum ContentStep {
    /// The entry is not new: leave it.
    Skip,
    /// The entry is new and its content was fetched on an earlier run.
    Cached,
    /// The entry is new and its content must be fetched.
    Fetch,
}

/// What to do about the content of an entry: nothing unless it is new, and
/// fetch it only when its URL has no recorded content.
pub open spec fn content_step(it: TrendingItem, new_ids: Seq<Seq<char>>, cached_urls: Seq<Seq<char>>) -> ContentStep {
    if !new_ids.contains(it.id@) {
        ContentStep::Skip
    } else if cached_urls.contains(it.url@) {
        ContentStep::Cached
    } else {
        ContentStep::Fetch
    }
}

/// The URLs of a list of (URL, hash) pairs.
pub open spec fn pair_urls(pairs: Seq<(Seq<char>, Seq<char>)>) -> Seq<Seq<char>> {
    pairs.map_values(|p: (Seq<char>, Seq<char>)| p.0)
}

/// Whether `url` is the URL of one of the pairs.
fn has_url(pairs: &Vec<(String, String)>, url: &str) -> (r: bool)
    ensures
        r == pair_urls(str_pairs_view(pairs@)).contains(url@),
{
    let ghost u = pair_urls(str_pairs_view(pairs@));
    let mut i: usize = 0;
    while i < pairs.len()
        invariant
            i <= pairs.len(),
            u == pair_urls(str_pairs_view(pairs@)),
            forall|k: int| 0 <= k < i ==> u[k] != url@,
        decreases pairs.len() - i,
    {
        if crate::text::str_eq(pairs[i].0.as_str(), url) {
            assert(u[i as int] == url@);
            return true;
        }
        i = i + 1;
    }
    false
}

/// What to do about the content of each entry of a run, given the ids of the
/// new entries and the (URL, hash) pairs of the content fetched before.
pub fn plan_content(items: &[TrendingItem], new_ids: &Vec<String>, hashes: &Vec<(String, String)>) -> (r:
    Vec<ContentStep>)
    ensures
        r.len() == items.len(),
        forall|i: int|
            0 <= i < items.len() ==> r@[i] == content_step(
                items@[i],
                strs_view(new_ids@),
                pair_urls(str_pairs_view(hashes@)),
            ),
{
    let mut r: Vec<ContentStep> = Vec::new();
    let mut i: usize = 0;
    while i < items.len()
        invariant
            i <= items.len(),
            r.len() == i,
            forall|k: int|
                0 <= k < i ==> r@[k] == content_step(
                    items@[k],
                    strs_view(new_ids@),
                    pair_urls(str_pairs_view(hashes@)),
                ),
        decreases items.len() - i,
    {
        let step = if !contains_str(new_ids, items[i].id.as_str()) {
            ContentStep::Skip
        } else if has_url(hashes, items[i].url.as_str()) {
            ContentStep::Cached
        } else {
            ContentStep::Fetch
        };
        r.push(step);
        i = i + 1;
    }
    r
}

/// The content counts of a run.
#[derive(Debug, Clone, Copy, PartialEq, Eq, Structural)]
pub struct ContentCounts {
    pub fetched: usize,
    pub cached: usize,
    pub failed: usize,
}

/// The content counts after the steps of a run, where `ok[i]` tells whether
/// the fetch of step `i` brought content.
pub open spec fn tally(steps: Seq<ContentStep>, ok: Seq<bool>) -> (nat, nat, nat)
    decreases steps.len(),
{
    if steps.len() == 0 {
        (0, 0, 0)
    } else {
        let n = (steps.len() - 1) as int;
        let t = tally(steps.drop_last(), ok);
        match steps[n] {
            ContentStep::Skip => t,
            ContentStep::Cached => (t.0, t.1 + 1, t.2),
            ContentStep::Fetch => if ok[n] {
                (t.0 + 1, t.1, t.2)
            } else {
                (t.0, t.1, t.2 + 1)
            },
        }
    }
}

/// Counts the content fetched, found cached, and failed over the steps of a
/// run; `ok[i]` tells whether the fetch of step `i` brought content.
pub fn count_content(steps: &Vec<ContentStep>, ok: &Vec<bool>) -> (r: ContentCounts)
    requires
        ok.len() == steps.len(),
    ensures
        (r.fetched as nat, r.cached as nat, r.failed as nat) == tally(steps@, ok@),
{
    let mut fetched: usize = 0;
    let mut cached: usize = 0;
    let mut failed: usize = 0;
    let mut i: usize = 0;
    while i < steps.len()
        invariant
            i <= steps.len(),
            ok.len() == steps.len(),
            (fetched as nat, cached as nat, failed as nat) == tally(steps@.take(i as int), ok@),
            fetched + cached + failed <= i,
        decreases steps.len() - i,
    {
        proof {
            assert(steps@.take(i + 1).drop_last() =~= steps@.take(i as int));
        }
        match steps[i] {
            ContentStep::Skip => {},
            ContentStep::Cached => {
                cached = cached + 1;
            },
            ContentStep::Fetch => {
                if ok[i] {
                    fetched = fetched + 1;
                } else {
                    failed = failed + 1;
                }
            },
        }
        i = i + 1;
    }
    assert(steps@.take(steps.len() as int) =~= steps@);
    ContentCounts { fetched, cached, failed }
}

/// Every default source name stands for its source, and every source of a
/// run with no names given (newsletters included) is a known one.
pub proof fn lemma_default_sources_are_known(monday: bool)
    ensures
        kind_of("github"@) == SourceKind::GitHub,
        kind_of("hn"@) == SourceKind::HackerNews,
        kind_of("lobsters"@) == SourceKind::Lobsters,
        kind_of("rust_weekly"@) == SourceKind::Newsletter,
        kind_of("bytebytego"@) == SourceKind::Newsletter,
        kind_of("ai_weekly"@) == SourceKind::Newsletter,
        forall|i: int|
            0 <= i < selected_sources(seq![], monday).len() ==> kind_of(
                #[trigger] selected_sources(seq![], monday)[i],
            ) != SourceKind::Unknown,
{
    reveal_strlit("github");
    reveal_strlit("hn");
    reveal_strlit("lobsters");
    reveal_strlit("rust_weekly");
    reveal_strlit("bytebytego");
    reveal_strlit("ai_weekly");
    assert("hn"@ != "github"@) by {
        assert("hn"@.len() != "github"@.len());
    }
    assert("lobsters"@ != "github"@) by {
        assert("lobsters"@[0] != "github"@[0]);
    }
    assert("lobsters"@ != "hn"@) by {
        assert("lobsters"@.len() != "hn"@.len());
    }
    assert("rust_weekly"@ != "github"@ && "rust_weekly"@ != "hn"@ && "rust_weekly"@ != "lobsters"@) by {
        assert("rust_weekly"@[0] != "github"@[0]);
        assert("rust_weekly"@[0] != "hn"@[0]);
        assert("rust_weekly"@[0] != "lobsters"@[0]);
    }
    assert("bytebytego"@ != "github"@ && "bytebytego"@ != "hn"@ && "bytebytego"@ != "lobsters"@) by {
        assert("bytebytego"@[0] != "github"@[0]);
        assert("bytebytego"@[0] != "hn"@[0]);
        assert("bytebytego"@[0] != "lobsters"@[0]);
    }
    assert("ai_weekly"@ != "github"@ && "ai_weekly"@ != "hn"@ && "ai_weekly"@ != "lobsters"@) by {
        assert("ai_weekly"@[0] != "github"@[0]);
        assert("ai_weekly"@[0] != "hn"@[0]);
        assert("ai_weekly"@[0] != "lobsters"@[0]);
    }
}

/// Filters that keep the same entries keep the same number of them.
proof fn lemma_filter_same(items: Seq<TrendingItem>, p: spec_fn(TrendingItem) -> bool, q: spec_fn(TrendingItem) -> bool)
    requires
        forall|it: TrendingItem| #[trigger] p(it) == q(it),
    ensures
        items.filter(p) == items.filter(q),
    decreases items.len(),
{
    reveal(Seq::filter);
    if items.len() > 0 {
        lemma_filter_same(items.drop_last(), p, q);
    }
}

/// A filter that keeps no entry of a list keeps nothing.
proof fn lemma_filter_none(items: Seq<TrendingItem>, p: spec_fn(TrendingItem) -> bool)
    requires
        forall|i: int| 0 <= i < items.len() ==> !p(#[trigger] items[i]),
    ensures
        items.filter(p).len() == 0,
    decreases items.len(),
{
    reveal(Seq::filter);
    if items.len() > 0 {
        assert(!p(items[items.len() - 1]));
        lemma_filter_none(items.drop_last(), p);
    }
}

/// The per-source counts count, for each source, its entries whose id is
/// among the new ids as new and the others as old; when every id is new,
/// no source has an old entry.
pub proof fn lemma_by_source_counts_direction(
    items: Seq<TrendingItem>,
    ids: Seq<Seq<char>>,
    r: Seq<(Seq<char>, SourceDiff)>,
)
    requires
        by_source_counts(items, ids, r),
    ensures
        forall|k: int|
            0 <= k < r.len() ==> (#[trigger] r[k]).1.new == items.filter(
                |it: TrendingItem| it.source@ == r[k].0 && ids.contains(it.id@),
            ).len() && r[k].1.old == items.filter(
                |it: TrendingItem| it.source@ == r[k].0 && !ids.contains(it.id@),
            ).len(),
        (forall|i: int| 0 <= i < items.len() ==> ids.contains(#[trigger] items[i].id@)) ==> forall|k: int|
            0 <= k < r.len() ==> (#[trigger] r[k]).1.old == 0,
{
    assert forall|k: int| 0 <= k < r.len() implies (#[trigger] r[k]).1.new == items.filter(
        |it: TrendingItem| it.source@ == r[k].0 && ids.contains(it.id@),
    ).len() && r[k].1.old == items.filter(
        |it: TrendingItem| it.source@ == r[k].0 && !ids.contains(it.id@),
    ).len() by {
        let s = sources_of(items)[k];
        assert(r[k].0 == s);
        lemma_filter_same(
            items,
            |it: TrendingItem| from_source(it, s) && id_listed(it, ids),
            |it: TrendingItem| it.source@ == r[k].0 && ids.contains(it.id@),
        );
        lemma_filter_same(
            items,
            |it: TrendingItem| from_source(it, s) && !id_listed(it, ids),
            |it: TrendingItem| it.source@ == r[k].0 && !ids.contains(it.id@),
        );
    }
    if forall|i: int| 0 <= i < items.len() ==> ids.contains(#[trigger] items[i].id@) {
        assert forall|k: int| 0 <= k < r.len() implies (#[trigger] r[k]).1.old == 0 by {
            let p = |it: TrendingItem| it.source@ == r[k].0 && !ids.contains(it.id@);
            assert forall|i: int| 0 <= i < items.len() implies !p(#[trigger] items[i]) by {
                assert(ids.contains(items[i].id@));
            }
            lemma_filter_none(items, p);
        }
    }
}

} // verus!
