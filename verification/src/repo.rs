//! A GitHub Trending repository and the star counts shown for it.
use vstd::prelude::*;
use crate::item::{clone_opt_string, opt_str};
use crate::number::{scaled_u64, scaled_value};
use crate::text::{
    all_ws, ascii_lower, ascii_lowered, ascii_upper, ascii_uppered, chars_of, is_ascii_text, is_ws,
    lemma_trim_keeps, lemma_trim_map, lemma_trim_no_ws, lemma_trim_surrounded, no_ws, parse_uint,
    parse_uint_chars, spec_to_lowercase, string_of, to_lowercase, trim, trim_chars,
};

verus! {

/// One GitHub Trending repository.
#[derive(Debug)]
pub struct Repo {
    /// `owner/repo`
    pub name: String,
    /// `https://github.com/owner/repo`
    pub url: String,
    pub description: Option<String>,
    pub language: Option<String>,
    /// Stars in total.
    pub stars_total: u64,
    /// Stars gained today.
    pub stars_today: u64,
}

/// The plain value of a `Repo`.
pub struct RepoModel {
    pub name: Seq<char>,
    pub url: Seq<char>,
    pub description: Option<Seq<char>>,
    pub language: Option<Seq<char>>,
    pub stars_total: u64,
    pub stars_today: u64,
}

impl View for Repo {
    type V = RepoModel;

    open spec fn view(&self) -> RepoModel {
        RepoModel {
            name: self.name@,
            url: self.url@,
            description: opt_str(self.description),
            language: opt_str(self.language),
            stars_total: self.stars_total,
            stars_today: self.stars_today,
        }
    }
}

impl Clone for Repo {
    fn clone(&self) -> (r: Self)
        ensures
            r == *self,
    {
        Repo {
            name: self.name.clone(),
            url: self.url.clone(),
            description: clone_opt_string(&self.description),
            language: clone_opt_string(&self.language),
            stars_total: self.stars_total,
            stars_today: self.stars_today,
        }
    }
}

/// `s` without any occurrence of `c`.
pub open spec fn remove_char(s: Seq<char>, c: char) -> Seq<char>
    decreases s.len(),
{
    if s.len() == 0 {
        s
    } else if s.last() == c {
        remove_char(s.drop_last(), c)
    } else {
        remove_char(s.drop_last(), c).push(s.last())
    }
}

/// The characters of `v` other than `c`.
pub fn remove_char_chars(v: &Vec<char>, c: char) -> (r: Vec<char>)
    ensures
        r@ == remove_char(v@, c),
{
    let mut r: Vec<char> = Vec::new();
    let mut i: usize = 0;
    while i < v.len()
        invariant
            i <= v.len(),
            r@ == remove_char(v@.take(i as int), c),
        decreases v.len() - i,
    {
        proof {
            assert(v@.take(i + 1).drop_last() =~= v@.take(i as int));
            assert(v@.take(i + 1).last() == v@[i as int]);
        }
        if v[i] != c {
            r.push(v[i]);
        }
        i = i + 1;
    }
    assert(v@.take(v.len() as int) =~= v@);
    r
}

/// The star count of an already lowercased text: a number followed by `k`,
/// `m` or `b` is scaled by a thousand, a million or a billion (read in the
/// syntax of std's `f64` parse, toward zero, saturating); any other text is
/// read as a `u64`.
pub open spec fn star_count_of_lowered(lower: Seq<char>) -> Option<u64> {
    if lower.len() > 0 && lower.last() == 'k' {
        scaled_u64(trim(lower.drop_last()), 3)
    } else if lower.len() > 0 && lower.last() == 'm' {
        scaled_u64(trim(lower.drop_last()), 6)
    } else if lower.len() > 0 && lower.last() == 'b' {
        scaled_u64(trim(lower.drop_last()), 9)
    } else {
        match parse_uint(lower, u64::MAX as nat) {
            Some(n) => Some(n as u64),
            None => None,
        }
    }
}

/// The text that is read as a star count: trimmed, without commas.
pub open spec fn star_text(s: Seq<char>) -> Seq<char> {
    remove_char(trim(s), ',')
}

/// The lowercase of a text (std `str::to_lowercase`): an all-ASCII text has
/// its letters `A` to `Z` lowercased; beyond ASCII it is what std computes
/// for the text with its ASCII letters lowercased, which is the same.
pub open spec fn lowered(t: Seq<char>) -> Seq<char> {
    if is_ascii_text(t) {
        ascii_lowered(t)
    } else {
        spec_to_lowercase(ascii_lowered(t))
    }
}

/// The star count `parse_star_count` gives for `s`.
pub open spec fn star_count_spec(s: Seq<char>) -> Option<u64> {
    if star_text(s).len() == 0 {
        None
    } else {
        star_count_of_lowered(lowered(star_text(s)))
    }
}

/// What holds of every character of a text holds of every character left
/// when one character is dropped.
proof fn lemma_remove_char_keeps(s: Seq<char>, c: char, p: spec_fn(char) -> bool)
    requires
        forall|i: int| 0 <= i < s.len() ==> p(#[trigger] s[i]),
    ensures
        forall|i: int| 0 <= i < remove_char(s, c).len() ==> p(#[trigger] remove_char(s, c)[i]),
    decreases s.len(),
{
    if s.len() > 0 {
        assert forall|i: int| 0 <= i < s.drop_last().len() implies p(#[trigger] s.drop_last()[i]) by {
            assert(s.drop_last()[i] == s[i]);
        }
        lemma_remove_char_keeps(s.drop_last(), c, p);
        assert(p(s[s.len() - 1]));
        let q = remove_char(s.drop_last(), c);
        if s.last() != c {
            assert forall|i: int| 0 <= i < q.push(s.last()).len() implies p(
                #[trigger] q.push(s.last())[i],
            ) by {
                if i < q.len() {
                    assert(q.push(s.last())[i] == q[i]);
                }
            }
        }
    }
}

/// Dropping a character commutes with a character map that keeps it apart
/// from the others.
proof fn lemma_remove_char_map(s: Seq<char>, c: char, f: spec_fn(char) -> char)
    requires
        forall|x: char| (#[trigger] f(x) == c) == (x == c),
    ensures
        remove_char(s.map_values(f), c) == remove_char(s, c).map_values(f),
    decreases s.len(),
{
    let m = s.map_values(f);
    if s.len() > 0 {
        assert(m.drop_last() =~= s.drop_last().map_values(f));
        assert(m.last() == f(s.last()));
        lemma_remove_char_map(s.drop_last(), c, f);
        if s.last() != c {
            let q = remove_char(s.drop_last(), c);
            assert(q.push(s.last()).map_values(f) =~= q.map_values(f).push(f(s.last())));
        }
    } else {
        assert(m =~= s.map_values(f));
    }
}

/// Dropping a character twice is dropping it once.
proof fn lemma_remove_char_twice(s: Seq<char>, c: char)
    ensures
        remove_char(remove_char(s, c), c) == remove_char(s, c),
    decreases s.len(),
{
    if s.len() > 0 {
        lemma_remove_char_twice(s.drop_last(), c);
        if s.last() != c {
            let p = remove_char(s.drop_last(), c);
            assert(p.push(s.last()).drop_last() =~= p);
        }
    }
}

/// Commas do not change a star count: for a text without whitespace, the
/// count is that of the text with its commas dropped (`"1,234"` reads as
/// `"1234"`).
pub proof fn lemma_star_count_ignores_commas(s: Seq<char>)
    requires
        no_ws(s),
    ensures
        star_count_spec(remove_char(s, ',')) == star_count_spec(s),
{
    lemma_trim_no_ws(s);
    lemma_remove_char_keeps(s, ',', |x: char| !is_ws(x));
    assert(no_ws(remove_char(s, ',')));
    lemma_trim_no_ws(remove_char(s, ','));
    lemma_remove_char_twice(s, ',');
}

/// Whitespace around a star count does not change it (`"  1.5k "` reads as
/// `"1.5k"`).
pub proof fn lemma_star_count_ignores_surrounding_whitespace(a: Seq<char>, s: Seq<char>, b: Seq<char>)
    requires
        all_ws(a),
        all_ws(b),
    ensures
        star_count_spec(a + s + b) == star_count_spec(s),
{
    lemma_trim_surrounded(a, s, b);
}

/// The case of ASCII letters does not change a star count (`"1.5K"` reads
/// as `"1.5k"`), whatever else the text holds.
pub proof fn lemma_star_count_ignores_ascii_case(s: Seq<char>)
    ensures
        star_count_spec(ascii_uppered(s)) == star_count_spec(s),
        star_count_spec(ascii_lowered(s)) == star_count_spec(s),
{
    let up = |c: char| ascii_upper(c);
    let lo = |c: char| ascii_lower(c);
    assert forall|c: char| is_ws(#[trigger] up(c)) == is_ws(c) by {}
    assert forall|x: char| (#[trigger] up(x) == ',') == (x == ',') by {}
    assert forall|c: char| is_ws(#[trigger] lo(c)) == is_ws(c) by {}
    assert forall|x: char| (#[trigger] lo(x) == ',') == (x == ',') by {}
    let t = star_text(s);
    lemma_trim_map(s, up);
    lemma_remove_char_map(trim(s), ',', up);
    assert(ascii_uppered(s) =~= s.map_values(up));
    assert(star_text(ascii_uppered(s)) == t.map_values(up));
    lemma_case_map_keeps_lowered(t, up);
    lemma_trim_map(s, lo);
    lemma_remove_char_map(trim(s), ',', lo);
    assert(ascii_lowered(s) =~= s.map_values(lo));
    assert(star_text(ascii_lowered(s)) == t.map_values(lo));
    lemma_case_map_keeps_lowered(t, lo);
}

/// A map that changes only the case of ASCII letters keeps a text's
/// lowercase.
proof fn lemma_case_map_keeps_lowered(t: Seq<char>, f: spec_fn(char) -> char)
    requires
        forall|c: char| #[trigger] ascii_lower(f(c)) == ascii_lower(c),
        forall|c: char| (((#[trigger] f(c)) as u32) < 128) == ((c as u32) < 128),
    ensures
        t.map_values(f).len() == t.len(),
        lowered(t.map_values(f)) == lowered(t),
{
    let m = t.map_values(f);
    assert(is_ascii_text(m) == is_ascii_text(t)) by {
        if is_ascii_text(t) {
            assert forall|i: int| 0 <= i < m.len() implies ((#[trigger] m[i]) as u32) < 128 by {
                assert((t[i] as u32) < 128);
                assert(m[i] == f(t[i]));
            }
        }
        if is_ascii_text(m) {
            assert forall|i: int| 0 <= i < t.len() implies ((#[trigger] t[i]) as u32) < 128 by {
                assert((m[i] as u32) < 128);
                assert(m[i] == f(t[i]));
            }
        }
    }
    assert forall|i: int| 0 <= i < t.len() implies #[trigger] ascii_lowered(m)[i] == ascii_lowered(t)[i] by {
        assert(m[i] == f(t[i]));
        assert(ascii_lower(f(t[i])) == ascii_lower(t[i]));
    }
    assert(ascii_lowered(m) =~= ascii_lowered(t));
}

/// The star count of an already lowercased star text.
pub fn star_count_from_lowercase(lower: &str) -> (r: Option<u64>)
    ensures
        r == star_count_of_lowered(lower@),
{
    let v = chars_of(lower);
    let n = v.len();
    if n > 0 && (v[n - 1] == 'k' || v[n - 1] == 'm' || v[n - 1] == 'b') {
        let mut head = v;
        let last = head.pop().unwrap();
        let num = trim_chars(&head);
        let scale: u8 = if last == 'k' {
            3
        } else if last == 'm' {
            6
        } else {
            9
        };
        scaled_value(&num, scale)
    } else {
        parse_uint_chars(&v, u64::MAX)
    }
}

/// Parses the star count GitHub shows: `"1,234"` is 1234, `"12.3k"` is 12300,
/// `"5.2m"` is 5200000. The text is trimmed, its commas dropped, and it is
/// lowercased before it is read; an empty text gives `None`.
pub fn parse_star_count(s: &str) -> (r: Option<u64>)
    ensures
        r == star_count_spec(s@),
{
    let v = chars_of(s);
    let t = trim_chars(&v);
    let u = remove_char_chars(&t, ',');
    if u.len() == 0 {
        return None;
    }
    let us = string_of(&u);
    let lower = to_lowercase(us.as_str());
    star_count_from_lowercase(lower.as_str())
}

} // verus!
