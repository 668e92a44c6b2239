//! The report written for AI tools: the entries of a run and what the cache
//! made of them.
use vstd::prelude::*;
use crate::cache::{derefs, strs_view};
use crate::clock::{is_rfc3339_text, local_now_rfc3339};
use crate::item::TrendingItem;

verus! {

/// How many entries of one source were new, and how many seen before.
#[derive(Debug, Clone, Copy, PartialEq, Eq, Structural)]
pub struct SourceDiff {
    pub new: usize,
    pub old: usize,
}

/// What the cache made of a run.
#[derive(Debug)]
pub struct CacheContext {
    /// `all_new`, `partial_update` or `no_change`.
    pub status: String,
    pub new_count: usize,
    pub old_count: usize,
    /// The ids of the new entries, in order.
    pub new_items: Vec<String>,
    /// Whether the run brought nothing new.
    pub is_duplicate: bool,
    pub fetched_content: usize,
    pub cached_content: usize,
    pub failed_content: usize,
    /// The counts of each source.
    pub by_source: Vec<(String, SourceDiff)>,
}

/// The report of a run.
#[derive(Debug)]
pub struct AiOutput {
    pub tool: String,
    pub version: &'static str,
    pub fetched_at: String,
    pub count: usize,
    pub items: Vec<TrendingItem>,
    pub cache: CacheContext,
}

/// The plain values of per-source counts.
pub open spec fn diffs_view(v: Seq<(String, SourceDiff)>) -> Seq<(Seq<char>, SourceDiff)> {
    v.map_values(|p: (String, SourceDiff)| (p.0@, p.1))
}

/// The counts recorded for `source`: those of its first record.
pub open spec fn diff_of(v: Seq<(Seq<char>, SourceDiff)>, source: Seq<char>) -> Option<SourceDiff>
    decreases v.len(),
{
    if v.len() == 0 {
        None
    } else if v[0].0 == source {
        Some(v[0].1)
    } else {
        diff_of(v.skip(1), source)
    }
}

/// The status of a run: `all_new` when something is new and nothing was
/// seen before, `partial_update` when something is new beside old entries,
/// `no_change` when nothing is new.
pub open spec fn cache_status(new_count: nat, old_count: nat) -> Seq<char> {
    if old_count == 0 && new_count > 0 {
        "all_new"@
    } else if new_count > 0 {
        "partial_update"@
    } else {
        "no_change"@
    }
}

/// The ids of a list of entries, in order.
pub open spec fn item_ids(v: Seq<TrendingItem>) -> Seq<Seq<char>> {
    v.map_values(|it: TrendingItem| it.id@)
}

/// Whether `r` reports a run with these entries, new and old entries, content
/// counts and per-source counts (whatever its time).
pub open spec fn reports(
    r: AiOutput,
    items: Seq<TrendingItem>,
    new_items: Seq<&TrendingItem>,
    old_items: Seq<&TrendingItem>,
    fetched_content: usize,
    cached_content: usize,
    failed_content: usize,
    by_source: Seq<(String, SourceDiff)>,
) -> bool {
    &&& r.tool@ == "trending-bot"@
    &&& r.version@ == "0.1.0"@
    &&& r.count == items.len()
    &&& r.items@ == items
    &&& r.cache.status@ == cache_status(new_items.len(), old_items.len())
    &&& r.cache.new_count == new_items.len()
    &&& r.cache.old_count == old_items.len()
    &&& strs_view(r.cache.new_items@) == item_ids(derefs(new_items))
    &&& r.cache.is_duplicate == (new_items.len() == 0)
    &&& r.cache.fetched_content == fetched_content
    &&& r.cache.cached_content == cached_content
    &&& r.cache.failed_content == failed_content
    &&& diffs_view(r.cache.by_source@) == diffs_view(by_source)
}

impl CacheContext {
    /// The counts recorded for `source`.
    pub fn source_diff(&self, source: &str) -> (r: Option<SourceDiff>)
        ensures
            r == diff_of(diffs_view(self.by_source@), source@),
    {
        let ghost v = diffs_view(self.by_source@);
        let mut i: usize = 0;
        assert(v.skip(0) =~= v);
        while i < self.by_source.len()
            invariant
                i <= self.by_source.len(),
                v == diffs_view(self.by_source@),
                diff_of(v, source@) == diff_of(v.skip(i as int), source@),
            decreases self.by_source.len() - i,
        {
            assert(v.skip(i as int).skip(1) =~= v.skip(i + 1));
            assert(v.skip(i as int)[0] == v[i as int]);
            if crate::text::str_eq(self.by_source[i].0.as_str(), source) {
                return Some(self.by_source[i].1);
            }
            i = i + 1;
        }
        None
    }
}

/// A copy of a list of entries.
fn copy_items(items: &[TrendingItem]) -> (r: Vec<TrendingItem>)
    ensures
        r@ == items@,
{
    let mut r: Vec<TrendingItem> = Vec::new();
    let mut i: usize = 0;
    while i < items.len()
        invariant
            i <= items.len(),
            r@ == items@.take(i as int),
        decreases items.len() - i,
    {
        r.push(items[i].clone());
        assert(r@ =~= items@.take(i + 1));
        i = i + 1;
    }
    assert(items@.take(items.len() as int) =~= items@);
    r
}

/// The ids of a list of entries, in order.
fn ids_of(v: &[&TrendingItem]) -> (r: Vec<String>)
    ensures
        strs_view(r@) == item_ids(derefs(v@)),
{
    let mut r: Vec<String> = Vec::new();
    let mut i: usize = 0;
    while i < v.len()
        invariant
            i <= v.len(),
            strs_view(r@) == item_ids(derefs(v@)).take(i as int),
        decreases v.len() - i,
    {
        let ghost before = strs_view(r@);
        r.push(v[i].id.clone());
        assert(strs_view(r@) =~= before.push(v@[i as int].id@));
        assert(item_ids(derefs(v@)).take(i + 1) =~= item_ids(derefs(v@)).take(i as int).push(
            v@[i as int].id@,
        ));
        i = i + 1;
    }
    assert(item_ids(derefs(v@)).take(v.len() as int) =~= item_ids(derefs(v@)));
    r
}

/// A copy of a list of per-source counts.
fn copy_diffs(v: &Vec<(String, SourceDiff)>) -> (r: Vec<(String, SourceDiff)>)
    ensures
        diffs_view(r@) == diffs_view(v@),
{
    let mut r: Vec<(String, SourceDiff)> = Vec::new();
    let mut i: usize = 0;
    while i < v.len()
        invariant
            i <= v.len(),
            diffs_view(r@) == diffs_view(v@).take(i as int),
        decreases v.len() - i,
    {
        let ghost before = diffs_view(r@);
        r.push((v[i].0.clone(), v[i].1));
        assert(diffs_view(r@) =~= before.push((v@[i as int].0@, v@[i as int].1)));
        assert(diffs_view(v@).take(i + 1) =~= diffs_view(v@).take(i as int).push(
            (v@[i as int].0@, v@[i as int].1),
        ));
        i = i + 1;
    }
    assert(diffs_view(v@).take(v.len() as int) =~= diffs_view(v@));
    r
}

impl AiOutput {
    /// The report of a run made at time `fetched_at`.
    pub fn new_at(
        items: &[TrendingItem],
        new_items: &[&TrendingItem],
        old_items: &[&TrendingItem],
        fetched_content: usize,
        cached_content: usize,
        failed_content: usize,
        by_source: &Vec<(String, SourceDiff)>,
        fetched_at: String,
    ) -> (r: AiOutput)
        ensures
            reports(
                r,
                items@,
                new_items@,
                old_items@,
                fetched_content,
                cached_content,
                failed_content,
                by_source@,
            ),
            r.fetched_at@ == fetched_at@,
    {
        let status = if old_items.len() == 0 && new_items.len() > 0 {
            "all_new".to_owned()
        } else if new_items.len() > 0 {
            "partial_update".to_owned()
        } else {
            "no_change".to_owned()
        };
        AiOutput {
            tool: "trending-bot".to_owned(),
            version: "0.1.0",
            fetched_at,
            count: items.len(),
            items: copy_items(items),
            cache: CacheContext {
                status,
                new_count: new_items.len(),
                old_count: old_items.len(),
                new_items: ids_of(new_items),
                is_duplicate: new_items.len() == 0,
                fetched_content,
                cached_content,
                failed_content,
                by_source: copy_diffs(by_source),
            },
        }
    }

    /// The report of a run, timed now (local time, RFC 3339).
    pub fn new(
        items: &[TrendingItem],
        new_items: &[&TrendingItem],
        old_items: &[&TrendingItem],
        fetched_content: usize,
        cached_content: usize,
        failed_content: usize,
        by_source: &Vec<(String, SourceDiff)>,
    ) -> (r: AiOutput)
        ensures
            reports(
                r,
                items@,
                new_items@,
                old_items@,
                fetched_content,
                cached_content,
                failed_content,
                by_source@,
            ),
            is_rfc3339_text(r.fetched_at@),
    {
        let now = local_now_rfc3339();
        AiOutput::new_at(
            items,
            new_items,
            old_items,
            fetched_content,
            cached_content,
            failed_content,
            by_source,
            now,
        )
    }
}

/// The status of a report: `all_new` exactly when something is new and no
/// old entry was seen, `partial_update` exactly when there are new and old
/// entries, `no_change` exactly when nothing is new. In particular a run with
/// an old entry is never reported as entirely new.
pub proof fn lemma_report_status(
    r: AiOutput,
    items: Seq<TrendingItem>,
    new_items: Seq<&TrendingItem>,
    old_items: Seq<&TrendingItem>,
    fetched_content: usize,
    cached_content: usize,
    failed_content: usize,
    by_source: Seq<(String, SourceDiff)>,
)
    requires
        reports(r, items, new_items, old_items, fetched_content, cached_content, failed_content, by_source),
    ensures
        (r.cache.status@ == "all_new"@) <==> (old_items.len() == 0 && new_items.len() > 0),
        (r.cache.status@ == "partial_update"@) <==> (old_items.len() > 0 && new_items.len() > 0),
        (r.cache.status@ == "no_change"@) <==> new_items.len() == 0,
        old_items.len() > 0 ==> r.cache.status@ != "all_new"@,
{
    reveal_strlit("all_new");
    reveal_strlit("partial_update");
    reveal_strlit("no_change");
    assert("all_new"@ != "partial_update"@) by {
        assert("all_new"@.len() != "partial_update"@.len());
    }
    assert("all_new"@ != "no_change"@) by {
        assert("all_new"@[0] != "no_change"@[0]);
    }
    assert("partial_update"@ != "no_change"@) by {
        assert("partial_update"@.len() != "no_change"@.len());
    }
}

/// The counts of a report are those of the run: all its entries, its new
/// and old entries; the new ids are those of the new entries in order; and
/// the run is a duplicate exactly when nothing is new.
pub proof fn lemma_report_counts(
    r: AiOutput,
    items: Seq<TrendingItem>,
    new_items: Seq<&TrendingItem>,
    old_items: Seq<&TrendingItem>,
    fetched_content: usize,
    cached_content: usize,
    failed_content: usize,
    by_source: Seq<(String, SourceDiff)>,
)
    requires
        reports(r, items, new_items, old_items, fetched_content, cached_content, failed_content, by_source),
    ensures
        r.count == items.len(),
        r.cache.new_count == new_items.len(),
        r.cache.old_count == old_items.len(),
        r.cache.new_items.len() == new_items.len(),
        forall|i: int| 0 <= i < new_items.len() ==> (#[trigger] r.cache.new_items@[i])@ == new_items[i].id@,
        r.cache.is_duplicate <==> new_items.len() == 0,
        r.cache.fetched_content == fetched_content,
        r.cache.cached_content == cached_content,
        r.cache.failed_content == failed_content,
{
    assert(strs_view(r.cache.new_items@).len() == r.cache.new_items@.len());
    assert(item_ids(derefs(new_items)).len() == new_items.len());
    assert forall|i: int| 0 <= i < new_items.len() implies (#[trigger] r.cache.new_items@[i])@
        == new_items[i].id@ by {
        assert(strs_view(r.cache.new_items@)[i] == r.cache.new_items@[i]@);
        assert(item_ids(derefs(new_items))[i] == derefs(new_items)[i].id@);
    }
}

} // verus!
