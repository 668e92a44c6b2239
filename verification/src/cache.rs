//! The record of the entries seen on the previous run, kept per source, and
//! the comparison of a new run against it.
use vstd::prelude::*;
use crate::item::{opt_str, TrendingItem};
use crate::text::{chars_of, hex_char, hex_fixed, hex_fixed_chars, push_str, str_eq, string_of};

verus! {

/// What std's `Path::join` makes of a directory and a name, as text: the
/// path `dir` with `name` adjoined, with the separator of the platform the
/// crate is built for.
pub uninterp spec fn spec_path_join(dir: Seq<char>, name: Seq<char>) -> Seq<char>;

/// std `Path::new(dir).join(name)`, read back as text with
/// `to_string_lossy`: the path `dir` with `name` adjoined. The result is
/// named; std documents the separator rules per platform, which are not
/// written out here. Both parts being UTF-8, the text is the path exactly.
#[verifier::external_body]
fn join_path(dir: &str, name: &str) -> (r: String)
    ensures
        r@ == spec_path_join(dir@, name@),
{
    std::path::Path::new(dir).join(name).to_string_lossy().into_owned()
}

/// What std's default hasher makes of a string: `DefaultHasher::new()` fed
/// with the string, then `finish()`.
pub uninterp spec fn spec_std_hash(s: Seq<char>) -> u64;

/// std `BuildHasher::hash_one` on `BuildHasherDefault<DefaultHasher>`: a fresh
/// `DefaultHasher::new()` fed with `s`, then `finish()`. std documents that
/// every hasher made by `new` is the same one, so the result depends on `s`
/// alone; which number it is, std leaves unspecified, and nothing more is
/// stated here.
#[verifier::external_body]
fn std_hash(s: &str) -> (h: u64)
    ensures
        h == spec_std_hash(s@),
{
    std::hash::BuildHasher::hash_one(
        &std::hash::BuildHasherDefault::<std::collections::hash_map::DefaultHasher>::default(),
        s,
    )
}

/// The short hash recorded for a URL: the default hash of its text, as 16
/// lowercase hexadecimal digits.
pub open spec fn url_hash(url: Seq<char>) -> Seq<char> {
    hex_fixed(spec_std_hash(url) as nat, 16)
}

/// The 16-digit, zero-padded, lowercase hexadecimal text of `h`.
pub fn hex16(h: u64) -> (r: String)
    ensures
        r@ == hex_fixed(h as nat, 16),
{
    let v = hex_fixed_chars(h, 16);
    string_of(&v)
}


// ------------------------------------------------------------------
// The ids seen last time
// ------------------------------------------------------------------

/// The texts of a list of strings.
pub open spec fn strs_view(v: Seq<String>) -> Seq<Seq<char>> {
    v.map_values(|s: String| s@)
}

/// The plain values of a list of (source, ids) records.
pub open spec fn pairs_view(v: Seq<(String, Vec<String>)>) -> Seq<(Seq<char>, Seq<Seq<char>>)> {
    v.map_values(|p: (String, Vec<String>)| (p.0@, strs_view(p.1@)))
}

/// The map of a list of (source, ids) records; a later record of a source
/// replaces an earlier one.
pub open spec fn seen_map(l: Seq<(Seq<char>, Seq<Seq<char>>)>) -> Map<Seq<char>, Seq<Seq<char>>>
    decreases l.len(),
{
    if l.len() == 0 {
        Map::empty()
    } else {
        seen_map(l.drop_last()).insert(l.last().0, l.last().1)
    }
}

/// Whether `id` was seen under `source`.
pub open spec fn was_seen(m: Map<Seq<char>, Seq<Seq<char>>>, source: Seq<char>, id: Seq<char>) -> bool {
    m.dom().contains(source) && m[source].contains(id)
}

/// Records past position `i` that do not name `s` leave its lookup as it was.
proof fn lemma_seen_suffix(l: Seq<(Seq<char>, Seq<Seq<char>>)>, i: int, s: Seq<char>)
    requires
        0 <= i <= l.len(),
        forall|j: int| i <= j < l.len() ==> l[j].0 != s,
    ensures
        seen_map(l).dom().contains(s) == seen_map(l.take(i)).dom().contains(s),
        seen_map(l).dom().contains(s) ==> seen_map(l)[s] == seen_map(l.take(i))[s],
    decreases l.len(),
{
    if i == l.len() {
        assert(l.take(i) =~= l);
    } else {
        lemma_seen_suffix(l.drop_last(), i, s);
        assert(l.drop_last().take(i) =~= l.take(i));
    }
}

/// The ids of the previous run, per source.
pub struct LastSeen {
    sources: Vec<(String, Vec<String>)>,
}

impl View for LastSeen {
    type V = Map<Seq<char>, Seq<Seq<char>>>;

    closed spec fn view(&self) -> Map<Seq<char>, Seq<Seq<char>>> {
        seen_map(pairs_view(self.sources@))
    }
}

impl LastSeen {
    /// No source seen yet.
    pub fn new() -> (r: LastSeen)
        ensures
            r@ == Map::<Seq<char>, Seq<Seq<char>>>::empty(),
    {
        LastSeen { sources: Vec::new() }
    }

    /// Records `ids` as the ids of `source`, replacing what it had.
    pub fn insert(&mut self, source: String, ids: Vec<String>)
        ensures
            final(self)@ == old(self)@.insert(source@, strs_view(ids@)),
    {
        let ghost before = pairs_view(self.sources@);
        let ghost entry = (source@, strs_view(ids@));
        self.sources.push((source, ids));
        assert(pairs_view(self.sources@) =~= before.push(entry));
        assert(pairs_view(self.sources@).drop_last() =~= before);
    }

    /// The ids of `source`, if it was seen.
    pub fn get(&self, source: &str) -> (r: Option<&Vec<String>>)
        ensures
            match r {
                Some(v) => self@.dom().contains(source@) && self@[source@] == strs_view(v@),
                None => !self@.dom().contains(source@),
            },
    {
        let ghost l = pairs_view(self.sources@);
        let mut i: usize = self.sources.len();
        while i > 0
            invariant
                i <= self.sources.len(),
                l == pairs_view(self.sources@),
                forall|j: int| i <= j < self.sources.len() ==> self.sources@[j].0@ != source@,
            decreases i,
        {
            let k = i - 1;
            if str_eq(self.sources[k].0.as_str(), source) {
                proof {
                    lemma_seen_suffix(l, k + 1, source@);
                    assert(l.take(k + 1).drop_last() =~= l.take(k as int));
                }
                return Some(&self.sources[k].1);
            }
            i = k;
        }
        proof {
            lemma_seen_suffix(l, 0, source@);
        }
        None
    }

    /// Whether `id` was seen under `source`.
    pub fn contains(&self, source: &str, id: &str) -> (r: bool)
        ensures
            r == was_seen(self@, source@, id@),
    {
        let found = self.get(source);
        match found {
            Some(ids) => {
                assert(self@.dom().contains(source@) && self@[source@] == strs_view(ids@));
                let mut j: usize = 0;
                while j < ids.len()
                    invariant
                        j <= ids.len(),
                        self@.dom().contains(source@) && self@[source@] == strs_view(ids@),
                        forall|k: int| 0 <= k < j ==> ids@[k]@ != id@,
                    decreases ids.len() - j,
                {
                    if str_eq(ids[j].as_str(), id) {
                        assert(strs_view(ids@)[j as int] == id@);
                        assert(strs_view(ids@).contains(id@));
                        return true;
                    }
                    j = j + 1;
                }
                assert(!strs_view(ids@).contains(id@));
                false
            },
            None => false,
        }
    }
}

// ------------------------------------------------------------------
// Comparing a run with the previous one
// ------------------------------------------------------------------

/// Whether an entry was seen on the previous run.
pub open spec fn is_old(last: Map<Seq<char>, Seq<Seq<char>>>, it: TrendingItem) -> bool {
    was_seen(last, it.source@, it.id@)
}

/// The entries seen on the previous run, in order.
pub open spec fn old_items(items: Seq<TrendingItem>, last: Map<Seq<char>, Seq<Seq<char>>>) -> Seq<TrendingItem> {
    items.filter(|it: TrendingItem| is_old(last, it))
}

/// The entries not seen on the previous run, in order.
pub open spec fn new_items(items: Seq<TrendingItem>, last: Map<Seq<char>, Seq<Seq<char>>>) -> Seq<TrendingItem> {
    items.filter(|it: TrendingItem| !is_old(last, it))
}

/// The entries a list of references points to.
pub open spec fn derefs(v: Seq<&TrendingItem>) -> Seq<TrendingItem> {
    v.map_values(|r: &TrendingItem| *r)
}

// ------------------------------------------------------------------
// The cache file
// ------------------------------------------------------------------

/// One entry of the cache file: its id, its URL, and the short hash of the URL
/// when its content was fetched.
pub struct CacheEntry {
    pub id: String,
    pub url: String,
    pub content_hash: Option<String>,
}

/// The entries of one source in the cache file, with the day they were saved.
pub struct SourceCache {
    pub date: String,
    pub items: Vec<CacheEntry>,
}

/// The cache file: a format version and the entries of each source.
pub struct CacheData {
    pub version: String,
    pub sources: Vec<(String, SourceCache)>,
}

/// The first cache format: a day and the GitHub Trending repository names.
pub struct OldCacheData {
    pub date: String,
    pub names: Vec<String>,
}

/// The plain value of a cache entry: id, URL and content hash.
pub type EntryView = (Seq<char>, Seq<char>, Option<Seq<char>>);

/// The plain value of one source's record: name, day and entries.
pub type GroupView = (Seq<char>, Seq<char>, Seq<EntryView>);

/// The plain value of a cache entry.
pub open spec fn entry_view(e: CacheEntry) -> EntryView {
    (e.id@, e.url@, opt_str(e.content_hash))
}

/// The plain values of a list of cache entries.
pub open spec fn entries_view(v: Seq<CacheEntry>) -> Seq<EntryView> {
    v.map_values(|e: CacheEntry| entry_view(e))
}

/// The plain values of the records of a cache file.
pub open spec fn groups_view(v: Seq<(String, SourceCache)>) -> Seq<GroupView> {
    v.map_values(|g: (String, SourceCache)| (g.0@, g.1.date@, entries_view(g.1.items@)))
}

impl View for CacheData {
    type V = (Seq<char>, Seq<GroupView>);

    open spec fn view(&self) -> (Seq<char>, Seq<GroupView>) {
        (self.version@, groups_view(self.sources@))
    }
}

/// The distinct elements of `s`, in order of first occurrence.
pub open spec fn dedup(s: Seq<Seq<char>>) -> Seq<Seq<char>>
    decreases s.len(),
{
    if s.len() == 0 {
        seq![]
    } else {
        let d = dedup(s.drop_last());
        if d.contains(s.last()) {
            d
        } else {
            d.push(s.last())
        }
    }
}

/// The source of each entry, in order.
pub open spec fn item_sources(items: Seq<TrendingItem>) -> Seq<Seq<char>> {
    items.map_values(|it: TrendingItem| it.source@)
}

/// The sources of a run, in order of first appearance.
pub open spec fn sources_of(items: Seq<TrendingItem>) -> Seq<Seq<char>> {
    dedup(item_sources(items))
}

/// The cache entry recorded for an entry of a run: its id and URL, and the
/// hash of its URL when its content was fetched.
pub open spec fn planned_entry(it: TrendingItem) -> EntryView {
    (it.id@, it.url@, if it.external_content is Some { Some(url_hash(it.url@)) } else { None })
}

/// Whether an entry comes from `source`.
pub open spec fn from_source(it: TrendingItem, source: Seq<char>) -> bool {
    it.source@ == source
}

/// The cache entries recorded for `source`: those of its entries, in order.
pub open spec fn entries_for(items: Seq<TrendingItem>, source: Seq<char>) -> Seq<EntryView> {
    items.filter(|it: TrendingItem| from_source(it, source)).map_values(
        |it: TrendingItem| planned_entry(it),
    )
}

/// The record of one source in the cache file saved on day `today`.
pub open spec fn saved_group(items: Seq<TrendingItem>, today: Seq<char>, source: Seq<char>) -> GroupView {
    (source, today, entries_for(items, source))
}

/// The cache file saved for a run on day `today`: format `2`, one record per
/// source in order of first appearance, each dated `today`.
pub open spec fn saved_data(items: Seq<TrendingItem>, today: Seq<char>) -> (Seq<char>, Seq<GroupView>) {
    ("2"@, sources_of(items).map_values(|s: Seq<char>| saved_group(items, today, s)))
}

/// The ids of a record's entries.
pub open spec fn entry_ids(es: Seq<EntryView>) -> Seq<Seq<char>> {
    es.map_values(|e: EntryView| e.0)
}

/// The (source, ids) records of a cache file.
pub open spec fn data_ids(groups: Seq<GroupView>) -> Seq<(Seq<char>, Seq<Seq<char>>)> {
    groups.map_values(|g: GroupView| (g.0, entry_ids(g.2)))
}

/// The (URL, hash) pairs of the entries that carry a hash, in order.
pub open spec fn hashes_in(es: Seq<EntryView>) -> Seq<(Seq<char>, Seq<char>)>
    decreases es.len(),
{
    if es.len() == 0 {
        seq![]
    } else {
        let p = hashes_in(es.drop_last());
        match es.last().2 {
            Some(h) => p.push((es.last().1, h)),
            None => p,
        }
    }
}

/// The (URL, hash) pairs of all records, in order.
pub open spec fn all_hashes(groups: Seq<GroupView>) -> Seq<(Seq<char>, Seq<char>)>
    decreases groups.len(),
{
    if groups.len() == 0 {
        seq![]
    } else {
        all_hashes(groups.drop_last()) + hashes_in(groups.last().2)
    }
}

/// The plain values of a list of string pairs.
pub open spec fn str_pairs_view(v: Seq<(String, String)>) -> Seq<(Seq<char>, Seq<char>)> {
    v.map_values(|p: (String, String)| (p.0@, p.1@))
}

/// The entry that an old-format cache records for a repository name.
pub open spec fn migrated_entry(name: Seq<char>) -> EntryView {
    (name, "https://github.com/"@ + name, None)
}

/// The cache file that replaces an old-format one: format `2`, one record
/// for `github_trending` dated as the old file, with each distinct name once
/// and its repository URL, no hash.
pub open spec fn migrated(date: Seq<char>, names: Seq<Seq<char>>) -> (Seq<char>, Seq<GroupView>) {
    (
        "2"@,
        seq![("github_trending"@, date, dedup(names).map_values(|n: Seq<char>| migrated_entry(n)))],
    )
}

/// Whether `s` is among `v`.
pub fn contains_str(v: &Vec<String>, s: &str) -> (r: bool)
    ensures
        r == strs_view(v@).contains(s@),
{
    let mut i: usize = 0;
    while i < v.len()
        invariant
            i <= v.len(),
            forall|k: int| 0 <= k < i ==> v@[k]@ != s@,
        decreases v.len() - i,
    {
        if str_eq(v[i].as_str(), s) {
            assert(strs_view(v@)[i as int] == s@);
            return true;
        }
        i = i + 1;
    }
    assert(!strs_view(v@).contains(s@));
    false
}

/// The distinct strings of `v`, in order of first occurrence.
pub fn dedup_strings(v: &Vec<String>) -> (r: Vec<String>)
    ensures
        strs_view(r@) == dedup(strs_view(v@)),
{
    let mut r: Vec<String> = Vec::new();
    let mut i: usize = 0;
    while i < v.len()
        invariant
            i <= v.len(),
            strs_view(r@) == dedup(strs_view(v@).take(i as int)),
        decreases v.len() - i,
    {
        proof {
            assert(strs_view(v@).take(i + 1).drop_last() =~= strs_view(v@).take(i as int));
            assert(strs_view(v@).take(i + 1).last() == v@[i as int]@);
        }
        if !contains_str(&r, v[i].as_str()) {
            let ghost before = strs_view(r@);
            r.push(v[i].clone());
            assert(strs_view(r@) =~= before.push(v@[i as int]@));
        }
        i = i + 1;
    }
    assert(strs_view(v@).take(v.len() as int) =~= strs_view(v@));
    r
}

/// The source of each entry, in order.
pub(crate) fn item_source_list(items: &[TrendingItem]) -> (r: Vec<String>)
    ensures
        strs_view(r@) == item_sources(items@),
{
    let mut r: Vec<String> = Vec::new();
    let mut i: usize = 0;
    while i < items.len()
        invariant
            i <= items.len(),
            strs_view(r@) == item_sources(items@).take(i as int),
        decreases items.len() - i,
    {
        let ghost before = strs_view(r@);
        r.push(items[i].source.clone());
        assert(strs_view(r@) =~= before.push(items@[i as int].source@));
        assert(item_sources(items@).take(i + 1) =~= item_sources(items@).take(i as int).push(
            items@[i as int].source@,
        ));
        i = i + 1;
    }
    assert(item_sources(items@).take(items.len() as int) =~= item_sources(items@));
    r
}

/// The ids of a list of cache entries, in order.
fn ids_of_entries(es: &Vec<CacheEntry>) -> (r: Vec<String>)
    ensures
        strs_view(r@) == entry_ids(entries_view(es@)),
{
    let mut r: Vec<String> = Vec::new();
    let mut i: usize = 0;
    while i < es.len()
        invariant
            i <= es.len(),
            strs_view(r@) == entry_ids(entries_view(es@)).take(i as int),
        decreases es.len() - i,
    {
        let ghost before = strs_view(r@);
        r.push(es[i].id.clone());
        assert(strs_view(r@) =~= before.push(es@[i as int].id@));
        assert(entry_ids(entries_view(es@)).take(i + 1) =~= entry_ids(entries_view(es@)).take(
            i as int,
        ).push(es@[i as int].id@));
        i = i + 1;
    }
    assert(entry_ids(entries_view(es@)).take(es.len() as int) =~= entry_ids(entries_view(es@)));
    r
}

/// Appends the (URL, hash) pairs of the entries that carry a hash.
fn push_hashes(r: &mut Vec<(String, String)>, es: &Vec<CacheEntry>)
    ensures
        str_pairs_view(final(r)@) == str_pairs_view(old(r)@) + hashes_in(entries_view(es@)),
{
    let ghost start = str_pairs_view(r@);
    let mut i: usize = 0;
    while i < es.len()
        invariant
            i <= es.len(),
            str_pairs_view(r@) == start + hashes_in(entries_view(es@).take(i as int)),
        decreases es.len() - i,
    {
        proof {
            assert(entries_view(es@).take(i + 1).drop_last() =~= entries_view(es@).take(i as int));
            assert(entries_view(es@).take(i + 1).last() == entry_view(es@[i as int]));
        }
        match &es[i].content_hash {
            Some(h) => {
                let ghost before = str_pairs_view(r@);
                r.push((es[i].url.clone(), h.clone()));
                assert(str_pairs_view(r@) =~= before.push((es@[i as int].url@, h@)));
            },
            None => {},
        }
        i = i + 1;
    }
    assert(entries_view(es@).take(es.len() as int) =~= entries_view(es@));
}

impl CacheData {
    /// The ids recorded for each source.
    pub fn seen(&self) -> (r: LastSeen)
        ensures
            r@ == seen_map(data_ids(self@.1)),
    {
        let mut r = LastSeen::new();
        let mut k: usize = 0;
        while k < self.sources.len()
            invariant
                k <= self.sources.len(),
                r@ == seen_map(data_ids(self@.1).take(k as int)),
            decreases self.sources.len() - k,
        {
            let ids = ids_of_entries(&self.sources[k].1.items);
            proof {
                assert(data_ids(self@.1).take(k + 1).drop_last() =~= data_ids(self@.1).take(k as int));
            }
            r.insert(self.sources[k].0.clone(), ids);
            k = k + 1;
        }
        assert(data_ids(self@.1).take(self.sources.len() as int) =~= data_ids(self@.1));
        r
    }

    /// The (URL, hash) pairs of every entry whose content was fetched, in
    /// the order of the file.
    pub fn content_hashes(&self) -> (r: Vec<(String, String)>)
        ensures
            str_pairs_view(r@) == all_hashes(self@.1),
    {
        let mut r: Vec<(String, String)> = Vec::new();
        let mut k: usize = 0;
        while k < self.sources.len()
            invariant
                k <= self.sources.len(),
                str_pairs_view(r@) == all_hashes(self@.1.take(k as int)),
            decreases self.sources.len() - k,
        {
            proof {
                assert(self@.1.take(k + 1).drop_last() =~= self@.1.take(k as int));
            }
            push_hashes(&mut r, &self.sources[k].1.items);
            k = k + 1;
        }
        assert(self@.1.take(self.sources.len() as int) =~= self@.1);
        r
    }
}

impl OldCacheData {
    /// The cache file that replaces this old-format one.
    pub fn migrate(&self) -> (r: CacheData)
        ensures
            r@ == migrated(self.date@, strs_view(self.names@)),
    {
        let names = dedup_strings(&self.names);
        let ghost d = strs_view(names@);
        let mut es: Vec<CacheEntry> = Vec::new();
        let mut i: usize = 0;
        while i < names.len()
            invariant
                i <= names.len(),
                d == strs_view(names@),
                entries_view(es@) == d.map_values(|n: Seq<char>| migrated_entry(n)).take(i as int),
            decreases names.len() - i,
        {
            let mut uv = chars_of("https://github.com/");
            push_str(&mut uv, names[i].as_str());
            let url = string_of(&uv);
            let ghost before = entries_view(es@);
            let e = CacheEntry { id: names[i].clone(), url, content_hash: None };
            assert(entry_view(e) == migrated_entry(d[i as int]));
            es.push(e);
            assert(entries_view(es@) =~= before.push(migrated_entry(d[i as int])));
            assert(entries_view(es@) =~= d.map_values(|n: Seq<char>| migrated_entry(n)).take(i + 1));
            i = i + 1;
        }
        assert(d.map_values(|n: Seq<char>| migrated_entry(n)).take(names.len() as int)
            =~= d.map_values(|n: Seq<char>| migrated_entry(n)));
        let mut sources: Vec<(String, SourceCache)> = Vec::new();
        sources.push(("github_trending".to_owned(), SourceCache { date: self.date.clone(), items: es }));
        let r = CacheData { version: "2".to_owned(), sources };
        assert(r@.1 =~= migrated(self.date@, strs_view(self.names@)).1);
        r
    }
}

/// The home directory the cache goes under: `HOME` when set, else
/// `USERPROFILE`, else the current directory `.`.
pub fn home_dir(home: Option<String>, user_profile: Option<String>) -> (r: String)
    ensures
        r@ == match (home, user_profile) {
            (Some(h), _) => h@,
            (None, Some(u)) => u@,
            (None, None) => "."@,
        },
{
    match home {
        Some(h) => h,
        None => match user_profile {
            Some(u) => u,
            None => ".".to_owned(),
        },
    }
}

/// The directory of the cache under a home directory:
/// `home/Library/Caches/trending-bot`.
pub open spec fn cache_dir_under(home: Seq<char>) -> Seq<char> {
    spec_path_join(spec_path_join(spec_path_join(home, "Library"@), "Caches"@), "trending-bot"@)
}

/// The store of the previous run's entries, in one directory (its path as
/// text).
pub struct RepoCache {
    cache_dir: String,
}

impl RepoCache {
    /// The path of the directory the cache lives in.
    pub closed spec fn directory(&self) -> Seq<char> {
        self.cache_dir@
    }

    /// The cache under the user's home directory,
    /// `Library/Caches/trending-bot` there; the home is `HOME` when set, else
    /// `USERPROFILE`, else the current directory `.`.
    pub fn new(home: Option<String>, user_profile: Option<String>) -> (r: RepoCache)
        ensures
            r.directory() == cache_dir_under(
                match (home, user_profile) {
                    (Some(h), _) => h@,
                    (None, Some(u)) => u@,
                    (None, None) => "."@,
                },
            ),
    {
        let h = home_dir(home, user_profile);
        let a = join_path(h.as_str(), "Library");
        let b = join_path(a.as_str(), "Caches");
        let c = join_path(b.as_str(), "trending-bot");
        RepoCache { cache_dir: c }
    }

    /// A cache kept in the directory `dir`.
    pub fn new_with_dir(dir: String) -> (r: RepoCache)
        ensures
            r.directory() == dir@,
    {
        RepoCache { cache_dir: dir }
    }

    /// The path of the directory the cache lives in.
    pub fn dir(&self) -> (r: &String)
        ensures
            r@ == self.directory(),
    {
        &self.cache_dir
    }

    /// The cache file: `data_v2.json` in the cache directory.
    pub fn cache_path(&self) -> (r: String)
        ensures
            r@ == spec_path_join(self.directory(), "data_v2.json"@),
    {
        join_path(self.cache_dir.as_str(), "data_v2.json")
    }

    /// The file of the first cache format, `last_repos.json` in the cache
    /// directory, which is migrated on first load.
    pub fn old_cache_path(&self) -> (r: String)
        ensures
            r@ == spec_path_join(self.directory(), "last_repos.json"@),
    {
        join_path(self.cache_dir.as_str(), "last_repos.json")
    }

    /// The short hash of a URL, 16 lowercase hexadecimal digits.
    pub fn compute_url_hash(&self, url: &str) -> (r: String)
        ensures
            r@ == url_hash(url@),
    {
        let h = std_hash(url);
        hex16(h)
    }
    /// The cache entries of `source`: one per entry of `items` from it, in order.
    fn entries_for_source(&self, items: &[TrendingItem], source: &str) -> (r: Vec<CacheEntry>)
        ensures
            entries_view(r@) == entries_for(items@, source@),
    {
        let mut r: Vec<CacheEntry> = Vec::new();
        let mut i: usize = 0;
        while i < items.len()
            invariant
                i <= items.len(),
                entries_view(r@) == entries_for(items@.take(i as int), source@),
            decreases items.len() - i,
        {
            let it = &items[i];
            proof {
                assert(items@.take(i + 1).drop_last() =~= items@.take(i as int));
                assert(items@.take(i + 1).last() == items@[i as int]);
                reveal(Seq::filter);
            }
            if str_eq(it.source.as_str(), source) {
                let h = match &it.external_content {
                    Some(_) => Some(self.compute_url_hash(it.url.as_str())),
                    None => None,
                };
                let e = CacheEntry { id: it.id.clone(), url: it.url.clone(), content_hash: h };
                assert(entry_view(e) == planned_entry(*it));
                let ghost before = entries_view(r@);
                r.push(e);
                assert(entries_view(r@) =~= before.push(planned_entry(*it)));
            }
            i = i + 1;
        }
        assert(items@.take(items.len() as int) =~= items@);
        r
    }

    /// The cache file that records the entries of a run on day `today`.
    pub fn save_data(&self, items: &[TrendingItem], today: &str) -> (r: CacheData)
        ensures
            r@ == saved_data(items@, today@),
    {
        let all = item_source_list(items);
        let names = dedup_strings(&all);
        let ghost groups = saved_data(items@, today@).1;
        let mut sources: Vec<(String, SourceCache)> = Vec::new();
        let mut k: usize = 0;
        while k < names.len()
            invariant
                k <= names.len(),
                strs_view(names@) == sources_of(items@),
                groups == saved_data(items@, today@).1,
                groups_view(sources@) == groups.take(k as int),
            decreases names.len() - k,
        {
            let es = self.entries_for_source(items, names[k].as_str());
            let ghost before = groups_view(sources@);
            sources.push((names[k].clone(), SourceCache { date: today.to_owned(), items: es }));
            assert(groups_view(sources@) =~= before.push(groups[k as int]));
            assert(groups.take(k + 1) =~= groups.take(k as int).push(groups[k as int]));
            k = k + 1;
        }
        assert(groups.take(names.len() as int) =~= groups);
        CacheData { version: "2".to_owned(), sources }
    }

    /// Splits `items` into those seen on the previous run and those not,
    /// each in the order of `items`.
    pub fn diff_multi<'a>(&self, items: &'a [TrendingItem], last_by_source: &LastSeen) -> (r: (
        Vec<&'a TrendingItem>,
        Vec<&'a TrendingItem>,
    ))
        ensures
            derefs(r.0@) == old_items(items@, last_by_source@),
            derefs(r.1@) == new_items(items@, last_by_source@),
    {
        let mut old: Vec<&'a TrendingItem> = Vec::new();
        let mut new: Vec<&'a TrendingItem> = Vec::new();
        let mut i: usize = 0;
        while i < items.len()
            invariant
                i <= items.len(),
                derefs(old@) == old_items(items@.take(i as int), last_by_source@),
                derefs(new@) == new_items(items@.take(i as int), last_by_source@),
            decreases items.len() - i,
        {
            let item = &items[i];
            proof {
                assert(items@.take(i + 1).drop_last() =~= items@.take(i as int));
                assert(items@.take(i + 1).last() == items@[i as int]);
                reveal(Seq::filter);
            }
            if last_by_source.contains(item.source.as_str(), item.id.as_str()) {
                let ghost before = derefs(old@);
                old.push(item);
                assert(derefs(old@) =~= before.push(*item));
            } else {
                let ghost before = derefs(new@);
                new.push(item);
                assert(derefs(new@) =~= before.push(*item));
            }
            i = i + 1;
        }
        assert(items@.take(items.len() as int) =~= items@);
        proof {
            reveal(Seq::filter);
        }
        (old, new)
    }
}

// ------------------------------------------------------------------
// Laws
// ------------------------------------------------------------------

/// `dedup` keeps exactly the elements of its input, each once.
proof fn lemma_dedup(s: Seq<Seq<char>>)
    ensures
        forall|x: Seq<char>| dedup(s).contains(x) <==> s.contains(x),
        forall|i: int, j: int| 0 <= i < j < dedup(s).len() ==> dedup(s)[i] != dedup(s)[j],
    decreases s.len(),
{
    if s.len() > 0 {
        let p = s.drop_last();
        lemma_dedup(p);
        let d = dedup(p);
        assert forall|x: Seq<char>| s.contains(x) <==> (p.contains(x) || s.last() == x) by {
            if s.contains(x) {
                let k = choose|k: int| 0 <= k < s.len() && s[k] == x;
                if k < s.len() - 1 {
                    assert(p[k] == x);
                }
            }
            if p.contains(x) {
                let k = choose|k: int| 0 <= k < p.len() && p[k] == x;
                assert(s[k] == x);
            }
            if s.last() == x {
                assert(s[s.len() - 1] == x);
            }
        }
        if !d.contains(s.last()) {
            let e = d.push(s.last());
            assert forall|x: Seq<char>| e.contains(x) <==> (d.contains(x) || s.last() == x) by {
                if e.contains(x) {
                    let k = choose|k: int| 0 <= k < e.len() && e[k] == x;
                    if k < d.len() {
                        assert(d[k] == x);
                    }
                }
                if d.contains(x) {
                    let k = choose|k: int| 0 <= k < d.len() && d[k] == x;
                    assert(e[k] == x);
                }
                if s.last() == x {
                    assert(e[d.len() as int] == x);
                }
            }
            assert forall|i: int, j: int| 0 <= i < j < e.len() implies e[i] != e[j] by {
                if j == d.len() {
                    assert(e[i] == d[i]);
                    if d[i] == s.last() {
                        assert(d.contains(s.last()));
                    }
                }
            }
        }
    }
}

/// A list of (source, ids) records that names each source once maps each
/// named source to its record's ids, and nothing else.
proof fn lemma_seen_distinct(l: Seq<(Seq<char>, Seq<Seq<char>>)>)
    requires
        forall|i: int, j: int| 0 <= i < j < l.len() ==> l[i].0 != l[j].0,
    ensures
        forall|s: Seq<char>|
            seen_map(l).dom().contains(s) <==> (exists|k: int| 0 <= k < l.len() && l[k].0 == s),
        forall|k: int| 0 <= k < l.len() ==> seen_map(l)[l[k].0] == l[k].1,
    decreases l.len(),
{
    if l.len() > 0 {
        let p = l.drop_last();
        lemma_seen_distinct(p);
        let n = l.len() - 1;
        assert forall|s: Seq<char>| (exists|k: int| 0 <= k < l.len() && l[k].0 == s) implies seen_map(
            l,
        ).dom().contains(s) by {
            let k = choose|k: int| 0 <= k < l.len() && l[k].0 == s;
            if k < n {
                assert(p[k].0 == s);
            }
        }
        assert forall|s: Seq<char>| seen_map(l).dom().contains(s) implies (exists|k: int|
            0 <= k < l.len() && l[k].0 == s) by {
            if s == l.last().0 {
                assert(l[n].0 == s);
            } else {
                assert(seen_map(p).dom().contains(s));
                let k = choose|k: int| 0 <= k < p.len() && p[k].0 == s;
                assert(p[k] == l[k]);
                assert(l[k].0 == s);
            }
        }
        assert forall|k: int| 0 <= k < l.len() implies seen_map(l)[l[k].0] == l[k].1 by {
            if k < n {
                assert(p[k] == l[k]);
                assert(l[k].0 != l[n].0);
            }
        }
    }
}

/// The ids recorded for `source` are those of its entries.
proof fn lemma_entry_ids_for(items: Seq<TrendingItem>, source: Seq<char>, id: Seq<char>)
    ensures
        entry_ids(entries_for(items, source)).contains(id) <==> (exists|i: int|
            0 <= i < items.len() && items[i].source@ == source && items[i].id@ == id),
{
    let pred = |it: TrendingItem| from_source(it, source);
    let f = items.filter(pred);
    let ids = entry_ids(entries_for(items, source));
    assert(ids.len() == f.len());
    if ids.contains(id) {
        let j = choose|j: int| 0 <= j < ids.len() && ids[j] == id;
        assert(ids[j] == f[j].id@);
        items.lemma_filter_pred(pred, j);
        f.lemma_filter_contains_rev(pred, f[j]);
        assert(f.contains(f[j]));
        items.lemma_filter_contains_rev(pred, f[j]);
        let i = choose|i: int| 0 <= i < items.len() && items[i] == f[j];
        assert(items[i].source@ == source && items[i].id@ == id);
    }
    if exists|i: int| 0 <= i < items.len() && items[i].source@ == source && items[i].id@ == id {
        let i = choose|i: int| 0 <= i < items.len() && items[i].source@ == source && items[i].id@ == id;
        items.lemma_filter_contains(pred, i);
        let j = choose|j: int| 0 <= j < f.len() && f[j] == items[i];
        assert(ids[j] == id);
    }
}

/// Loading the cache file saved for a run gives back, for each source,
/// exactly the ids of that source's entries in the run.
pub proof fn lemma_save_then_load(items: Seq<TrendingItem>, today: Seq<char>, source: Seq<char>, id: Seq<char>)
    ensures
        was_seen(seen_map(data_ids(saved_data(items, today).1)), source, id) <==> (exists|i: int|
            0 <= i < items.len() && items[i].source@ == source && items[i].id@ == id),
{
    let names = sources_of(items);
    let l = data_ids(saved_data(items, today).1);
    lemma_dedup(item_sources(items));
    assert forall|i: int, j: int| 0 <= i < j < l.len() implies l[i].0 != l[j].0 by {
        assert(l[i].0 == names[i]);
        assert(l[j].0 == names[j]);
    }
    lemma_seen_distinct(l);
    lemma_entry_ids_for(items, source, id);
    let m = seen_map(l);
    if was_seen(m, source, id) {
        let k = choose|k: int| 0 <= k < l.len() && l[k].0 == source;
        assert(m[source] == l[k].1);
        assert(l[k].1 == entry_ids(entries_for(items, source)));
    }
    if exists|i: int| 0 <= i < items.len() && items[i].source@ == source && items[i].id@ == id {
        let i = choose|i: int| 0 <= i < items.len() && items[i].source@ == source && items[i].id@ == id;
        assert(item_sources(items)[i] == source);
        assert(item_sources(items).contains(source));
        let k = choose|k: int| 0 <= k < names.len() && names[k] == source;
        assert(l[k].0 == source);
        assert(m[source] == l[k].1);
    }
}

/// An entry that carries a hash gives its (URL, hash) pair.
proof fn lemma_hashes_in_contains(es: Seq<EntryView>, j: int, h: Seq<char>)
    requires
        0 <= j < es.len(),
        es[j].2 == Some(h),
    ensures
        hashes_in(es).contains((es[j].1, h)),
    decreases es.len(),
{
    let p = hashes_in(es.drop_last());
    if j < es.len() - 1 {
        lemma_hashes_in_contains(es.drop_last(), j, h);
        let m = choose|m: int| 0 <= m < p.len() && p[m] == (es[j].1, h);
        assert(hashes_in(es)[m] == (es[j].1, h));
    } else {
        assert(es.last() == es[j]);
        assert(hashes_in(es) == p.push((es[j].1, h)));
        assert(hashes_in(es)[p.len() as int] == (es[j].1, h));
    }
}

/// The pairs of every record are among the pairs of the file.
proof fn lemma_all_hashes_contains(gs: Seq<GroupView>, k: int, pair: (Seq<char>, Seq<char>))
    requires
        0 <= k < gs.len(),
        hashes_in(gs[k].2).contains(pair),
    ensures
        all_hashes(gs).contains(pair),
    decreases gs.len(),
{
    let prev = all_hashes(gs.drop_last());
    if k < gs.len() - 1 {
        lemma_all_hashes_contains(gs.drop_last(), k, pair);
        let m = choose|m: int| 0 <= m < prev.len() && prev[m] == pair;
        assert(all_hashes(gs)[m] == pair);
    } else {
        let last = hashes_in(gs.last().2);
        assert(gs.last() == gs[k]);
        let m = choose|m: int| 0 <= m < last.len() && last[m] == pair;
        assert(all_hashes(gs)[prev.len() + m] == pair);
    }
}

/// The content fetched in a run is found again in the cache file saved for
/// it: the URL of every entry with content is among the URLs that carry a
/// hash, with the hash of that URL.
pub proof fn lemma_saved_content_is_cached(items: Seq<TrendingItem>, today: Seq<char>, i: int)
    requires
        0 <= i < items.len(),
        items[i].external_content is Some,
    ensures
        all_hashes(saved_data(items, today).1).contains((items[i].url@, url_hash(items[i].url@))),
{
    let it = items[i];
    let s = it.source@;
    let names = sources_of(items);
    lemma_dedup(item_sources(items));
    assert(item_sources(items)[i] == s);
    assert(item_sources(items).contains(s));
    let k = choose|k: int| 0 <= k < names.len() && names[k] == s;
    let gs = saved_data(items, today).1;
    assert(gs[k] == saved_group(items, today, s));
    let pred = |x: TrendingItem| from_source(x, s);
    let f = items.filter(pred);
    items.lemma_filter_contains(pred, i);
    let j = choose|j: int| 0 <= j < f.len() && f[j] == it;
    let es = entries_for(items, s);
    assert(es[j] == planned_entry(it));
    lemma_hashes_in_contains(es, j, url_hash(it.url@));
    lemma_all_hashes_contains(gs, k, (it.url@, url_hash(it.url@)));
}

/// A pair among the hashes of some entries is the URL and hash of one of
/// them.
proof fn lemma_hashes_in_member(es: Seq<EntryView>, m: int)
    requires
        0 <= m < hashes_in(es).len(),
    ensures
        exists|j: int|
            0 <= j < es.len() && es[j].2 == Some(hashes_in(es)[m].1) && #[trigger] es[j].1
                == hashes_in(es)[m].0,
    decreases es.len(),
{
    let p = hashes_in(es.drop_last());
    if m < p.len() {
        assert(hashes_in(es)[m] == p[m]);
        lemma_hashes_in_member(es.drop_last(), m);
        let j = choose|j: int|
            0 <= j < es.drop_last().len() && es.drop_last()[j].2 == Some(p[m].1) && #[trigger] es.drop_last()[j].1
                == p[m].0;
        assert(es[j] == es.drop_last()[j]);
    } else {
        let j = es.len() - 1;
        assert(es[j] == es.last());
        assert(es[j].1 == hashes_in(es)[m].0);
    }
}

/// A pair among the hashes of a file is among the hashes of one record.
proof fn lemma_all_hashes_member(gs: Seq<GroupView>, m: int)
    requires
        0 <= m < all_hashes(gs).len(),
    ensures
        exists|k: int| 0 <= k < gs.len() && #[trigger] hashes_in(gs[k].2).contains(all_hashes(gs)[m]),
    decreases gs.len(),
{
    let prev = all_hashes(gs.drop_last());
    let last = hashes_in(gs.last().2);
    if m < prev.len() {
        assert(all_hashes(gs)[m] == prev[m]);
        lemma_all_hashes_member(gs.drop_last(), m);
        let k = choose|k: int|
            0 <= k < gs.drop_last().len() && #[trigger] hashes_in(gs.drop_last()[k].2).contains(prev[m]);
        assert(gs[k] == gs.drop_last()[k]);
    } else {
        assert(all_hashes(gs)[m] == last[m - prev.len()]);
        assert(gs[gs.len() - 1] == gs.last());
        assert(hashes_in(gs[gs.len() - 1].2).contains(all_hashes(gs)[m]));
    }
}

/// An element kept by a filter is an element of the list.
proof fn lemma_filter_member(s: Seq<TrendingItem>, p: spec_fn(TrendingItem) -> bool, j: int)
    requires
        0 <= j < s.filter(p).len(),
    ensures
        exists|i: int| 0 <= i < s.len() && #[trigger] s[i] == s.filter(p)[j],
    decreases s.len(),
{
    reveal(Seq::filter);
    let d = s.drop_last();
    let fd = d.filter(p);
    if j < fd.len() {
        assert(s.filter(p)[j] == fd[j]);
        lemma_filter_member(d, p, j);
        let i = choose|i: int| 0 <= i < d.len() && #[trigger] d[i] == fd[j];
        assert(s[i] == d[i]);
    } else {
        assert(s.filter(p)[j] == s.last());
        assert(s[s.len() - 1] == s.last());
    }
}

/// Nothing else is found among the hashes of a saved cache file: each
/// (URL, hash) pair there is the URL of an entry of the run that had content,
/// with the hash of that URL.
pub proof fn lemma_cached_content_was_saved(
    items: Seq<TrendingItem>,
    today: Seq<char>,
    pair: (Seq<char>, Seq<char>),
)
    requires
        all_hashes(saved_data(items, today).1).contains(pair),
    ensures
        exists|i: int|
            0 <= i < items.len() && (#[trigger] items[i]).external_content is Some && pair == (
                items[i].url@,
                url_hash(items[i].url@),
            ),
{
    let gs = saved_data(items, today).1;
    let m = choose|m: int| 0 <= m < all_hashes(gs).len() && all_hashes(gs)[m] == pair;
    lemma_all_hashes_member(gs, m);
    let k = choose|k: int| 0 <= k < gs.len() && #[trigger] hashes_in(gs[k].2).contains(all_hashes(gs)[m]);
    let s = sources_of(items)[k];
    assert(gs[k] == saved_group(items, today, s));
    let es = entries_for(items, s);
    let h = hashes_in(es);
    let n = choose|n: int| 0 <= n < h.len() && h[n] == pair;
    lemma_hashes_in_member(es, n);
    let j = choose|j: int| 0 <= j < es.len() && es[j].2 == Some(h[n].1) && #[trigger] es[j].1 == h[n].0;
    let pred = |x: TrendingItem| from_source(x, s);
    let f = items.filter(pred);
    assert(es[j] == planned_entry(f[j]));
    lemma_filter_member(items, pred, j);
    let i = choose|i: int| 0 <= i < items.len() && #[trigger] items[i] == f[j];
    assert(items[i].external_content is Some);
}

/// Keeping every element that passes a test that all pass keeps the list.
proof fn lemma_filter_all(s: Seq<TrendingItem>, p: spec_fn(TrendingItem) -> bool)
    requires
        forall|i: int| 0 <= i < s.len() ==> p(s[i]),
    ensures
        s.filter(p) == s,
    decreases s.len(),
{
    reveal(Seq::filter);
    if s.len() > 0 {
        lemma_filter_all(s.drop_last(), p);
        assert(s.drop_last().push(s.last()) =~= s);
    }
}

/// Keeping the elements that pass a test that none pass keeps nothing.
proof fn lemma_filter_none(s: Seq<TrendingItem>, p: spec_fn(TrendingItem) -> bool)
    requires
        forall|i: int| 0 <= i < s.len() ==> !p(s[i]),
    ensures
        s.filter(p) == Seq::<TrendingItem>::empty(),
    decreases s.len(),
{
    reveal(Seq::filter);
    if s.len() > 0 {
        lemma_filter_none(s.drop_last(), p);
    } else {
        assert(s =~= Seq::<TrendingItem>::empty());
    }
}

/// Comparing a run with the cache file saved for that same run finds every
/// entry already seen and none new.
pub proof fn lemma_rerun_finds_nothing_new(items: Seq<TrendingItem>, today: Seq<char>)
    ensures
        old_items(items, seen_map(data_ids(saved_data(items, today).1))) == items,
        new_items(items, seen_map(data_ids(saved_data(items, today).1))) == Seq::<TrendingItem>::empty(),
{
    let m = seen_map(data_ids(saved_data(items, today).1));
    assert forall|i: int| 0 <= i < items.len() implies is_old(m, items[i]) by {
        lemma_save_then_load(items, today, items[i].source@, items[i].id@);
    }
    lemma_filter_all(items, |it: TrendingItem| is_old(m, it));
    lemma_filter_none(items, |it: TrendingItem| !is_old(m, it));
}

/// Every entry of a run is either old or new, never both: the two lists
/// together are as long as the run, the old list holds exactly the entries
/// seen before and the new list exactly the others.
pub proof fn lemma_diff_partitions(items: Seq<TrendingItem>, last: Map<Seq<char>, Seq<Seq<char>>>)
    ensures
        old_items(items, last).len() + new_items(items, last).len() == items.len(),
        forall|i: int|
            0 <= i < items.len() ==> (old_items(items, last).contains(items[i]) <==> is_old(last, items[i])),
        forall|i: int|
            0 <= i < items.len() ==> (new_items(items, last).contains(items[i]) <==> !is_old(last, items[i])),
    decreases items.len(),
{
    reveal(Seq::filter);
    let po = |it: TrendingItem| is_old(last, it);
    let pn = |it: TrendingItem| !is_old(last, it);
    if items.len() > 0 {
        lemma_diff_partitions(items.drop_last(), last);
    }
    assert forall|i: int| 0 <= i < items.len() implies (old_items(items, last).contains(items[i]) <==> is_old(
        last,
        items[i],
    )) by {
        if is_old(last, items[i]) {
            items.lemma_filter_contains(po, i);
        }
        if old_items(items, last).contains(items[i]) {
            let j = choose|j: int| 0 <= j < old_items(items, last).len() && old_items(items, last)[j] == items[i];
            items.lemma_filter_pred(po, j);
        }
    }
    assert forall|i: int| 0 <= i < items.len() implies (new_items(items, last).contains(items[i]) <==> !is_old(
        last,
        items[i],
    )) by {
        if !is_old(last, items[i]) {
            items.lemma_filter_contains(pn, i);
        }
        if new_items(items, last).contains(items[i]) {
            let j = choose|j: int| 0 <= j < new_items(items, last).len() && new_items(items, last)[j] == items[i];
            items.lemma_filter_pred(pn, j);
        }
    }
}

/// Loading an old-format cache through its migration sees exactly its names,
/// all under `github_trending`.
pub proof fn lemma_migration_keeps_names(date: Seq<char>, names: Seq<Seq<char>>, source: Seq<char>, id: Seq<char>)
    ensures
        was_seen(seen_map(data_ids(migrated(date, names).1)), source, id) <==> (source
            == "github_trending"@ && names.contains(id)),
{
    let l = data_ids(migrated(date, names).1);
    let d = dedup(names);
    lemma_dedup(names);
    assert(l.len() == 1);
    assert(l.drop_last() =~= Seq::<(Seq<char>, Seq<Seq<char>>)>::empty());
    assert(seen_map(l.drop_last()) == Map::<Seq<char>, Seq<Seq<char>>>::empty());
    assert(l.last() == l[0]);
    assert(seen_map(l) == Map::<Seq<char>, Seq<Seq<char>>>::empty().insert(l[0].0, l[0].1));
    assert(l[0].0 == "github_trending"@);
    let ids = l[0].1;
    assert(ids =~= d);
}

/// Whether a character is a lowercase hexadecimal digit.
pub open spec fn is_hex_digit(c: char) -> bool {
    ('0' <= c <= '9') || ('a' <= c <= 'f')
}

/// The fixed-width hexadecimal text of a number has exactly that many
/// characters, each a lowercase hexadecimal digit.
pub proof fn lemma_hex_fixed_shape(n: nat, k: nat)
    ensures
        hex_fixed(n, k).len() == k,
        forall|i: int| 0 <= i < k ==> is_hex_digit(#[trigger] hex_fixed(n, k)[i]),
    decreases k,
{
    if k > 0 {
        lemma_hex_fixed_shape(n / 16, (k - 1) as nat);
        let d = n % 16;
        assert(is_hex_digit(hex_char(d)));
    }
}

/// The hash recorded for a URL is 16 lowercase hexadecimal digits.
pub proof fn lemma_url_hash_shape(url: Seq<char>)
    ensures
        url_hash(url).len() == 16,
        forall|i: int| 0 <= i < 16 ==> is_hex_digit(#[trigger] url_hash(url)[i]),
{
    lemma_hex_fixed_shape(spec_std_hash(url) as nat, 16);
}

} // verus!
