//! Character-level text model shared by the whole library: whitespace,
//! trimming, word splitting, UTF-8 widths, decimal and hexadecimal digits.
use vstd::prelude::*;
use vstd::std_specs::iter::IteratorSpec;
use vstd::utf8::{decode_utf8, valid_utf8};

verus! {

// ------------------------------------------------------------------
// Building and reading strings
// ------------------------------------------------------------------

/// Appends one character to a string (std `String::push`).
#[verifier::external_body]
pub(crate) fn push_char(s: &mut String, c: char)
    ensures
        final(s)@ == old(s)@.push(c),
{
    s.push(c);
}

/// The characters of a string slice, in order.
pub fn chars_of(s: &str) -> (v: Vec<char>)
    ensures
        v@ == s@,
{
    let mut v: Vec<char> = Vec::new();
    for c in iter: s.chars()
        invariant
            iter.seq() == s@,
            v@ == s@.take(iter.index() as int),
    {
        v.push(c);
    }
    v
}

/// A string holding exactly the given characters.
pub fn string_of(v: &Vec<char>) -> (s: String)
    ensures
        s@ == v@,
{
    let mut s = String::new();
    let mut i: usize = 0;
    while i < v.len()
        invariant
            i <= v.len(),
            s@ == v@.take(i as int),
        decreases v.len() - i,
    {
        push_char(&mut s, v[i]);
        assert(v@.take(i as int).push(v@[i as int]) == v@.take(i + 1));
        i = i + 1;
    }
    assert(v@.take(v.len() as int) == v@);
    s
}

/// Appends the characters of `s` to `v`.
pub fn push_str(v: &mut Vec<char>, s: &str)
    ensures
        final(v)@ == old(v)@ + s@,
{
    let cs = chars_of(s);
    push_all(v, &cs);
}

/// Appends all of `w` to `v`.
pub fn push_all(v: &mut Vec<char>, w: &Vec<char>)
    ensures
        final(v)@ == old(v)@ + w@,
{
    let ghost start = v@;
    let mut i: usize = 0;
    while i < w.len()
        invariant
            i <= w.len(),
            v@ == start + w@.take(i as int),
        decreases w.len() - i,
    {
        v.push(w[i]);
        assert(w@.take(i as int).push(w@[i as int]) == w@.take(i + 1));
        i = i + 1;
    }
    assert(w@.take(w.len() as int) == w@);
}

/// Whether two character vectors are equal.
pub fn chars_eq(a: &Vec<char>, b: &Vec<char>) -> (r: bool)
    ensures
        r == (a@ == b@),
{
    if a.len() != b.len() {
        return false;
    }
    let mut i: usize = 0;
    while i < a.len()
        invariant
            i <= a.len(),
            a.len() == b.len(),
            forall|j: int| 0 <= j < i ==> a@[j] == b@[j],
        decreases a.len() - i,
    {
        if a[i] != b[i] {
            return false;
        }
        i = i + 1;
    }
    assert(a@ =~= b@);
    true
}

/// Whether a character vector spells the given string slice.
pub fn chars_eq_str(a: &Vec<char>, b: &str) -> (r: bool)
    ensures
        r == (a@ == b@),
{
    let bv = chars_of(b);
    chars_eq(a, &bv)
}

/// Whether two string slices are equal.
pub fn str_eq(a: &str, b: &str) -> (r: bool)
    ensures
        r == (a@ == b@),
{
    let av = chars_of(a);
    let bv = chars_of(b);
    chars_eq(&av, &bv)
}

/// The characters `v[from..to]`.
pub fn slice_chars(v: &Vec<char>, from: usize, to: usize) -> (r: Vec<char>)
    requires
        from <= to <= v.len(),
    ensures
        r@ == v@.subrange(from as int, to as int),
{
    let mut r: Vec<char> = Vec::new();
    let mut i = from;
    while i < to
        invariant
            from <= i <= to,
            to <= v.len(),
            r@ == v@.subrange(from as int, i as int),
        decreases to - i,
    {
        r.push(v[i]);
        assert(v@.subrange(from as int, i as int).push(v@[i as int]) == v@.subrange(
            from as int,
            i + 1,
        ));
        i = i + 1;
    }
    r
}

/// Whether `p` is a prefix of `s`.
pub open spec fn has_prefix(s: Seq<char>, p: Seq<char>) -> bool {
    p.len() <= s.len() && s.take(p.len() as int) == p
}

/// Whether the characters `v` start with `p`.
pub fn starts_with(v: &Vec<char>, p: &Vec<char>) -> (r: bool)
    ensures
        r == has_prefix(v@, p@),
{
    if p.len() > v.len() {
        return false;
    }
    let mut i: usize = 0;
    while i < p.len()
        invariant
            i <= p.len() <= v.len(),
            forall|j: int| 0 <= j < i ==> v@[j] == p@[j],
        decreases p.len() - i,
    {
        if v[i] != p[i] {
            assert(v@.take(p.len() as int)[i as int] != p@[i as int]);
            return false;
        }
        i = i + 1;
    }
    assert(v@.take(p.len() as int) =~= p@);
    true
}

/// The character sequences of a list of character vectors.
pub open spec fn views(v: Seq<Vec<char>>) -> Seq<Seq<char>> {
    v.map_values(|x: Vec<char>| x@)
}

// ------------------------------------------------------------------
// Whitespace (std `char::is_whitespace`: the Unicode White_Space set)
// ------------------------------------------------------------------

/// The Unicode `White_Space` characters, as `char::is_whitespace` defines them.
pub open spec fn is_ws(c: char) -> bool {
    ||| c == '\t'
    ||| c == '\n'
    ||| c == '\u{0B}'
    ||| c == '\u{0C}'
    ||| c == '\r'
    ||| c == ' '
    ||| c == '\u{85}'
    ||| c == '\u{A0}'
    ||| c == '\u{1680}'
    ||| ('\u{2000}' <= c && c <= '\u{200A}')
    ||| c == '\u{2028}'
    ||| c == '\u{2029}'
    ||| c == '\u{202F}'
    ||| c == '\u{205F}'
    ||| c == '\u{3000}'
}

/// Whether `c` is a whitespace character.
pub fn is_whitespace(c: char) -> (r: bool)
    ensures
        r == is_ws(c),
{
    c == '\t' || c == '\n' || c == '\u{0B}' || c == '\u{0C}' || c == '\r' || c == ' ' || c
        == '\u{85}' || c == '\u{A0}' || c == '\u{1680}' || ('\u{2000}' <= c && c <= '\u{200A}')
        || c == '\u{2028}' || c == '\u{2029}' || c == '\u{202F}' || c == '\u{205F}' || c
        == '\u{3000}'
}

/// `s` without its leading whitespace.
pub open spec fn trim_start(s: Seq<char>) -> Seq<char>
    decreases s.len(),
{
    if s.len() > 0 && is_ws(s[0]) {
        trim_start(s.drop_first())
    } else {
        s
    }
}

/// `s` without its trailing whitespace.
pub open spec fn trim_end(s: Seq<char>) -> Seq<char>
    decreases s.len(),
{
    if s.len() > 0 && is_ws(s.last()) {
        trim_end(s.drop_last())
    } else {
        s
    }
}

/// `s` without leading and trailing whitespace (std `str::trim`).
pub open spec fn trim(s: Seq<char>) -> Seq<char> {
    trim_end(trim_start(s))
}

proof fn lemma_trim_start_skip(s: Seq<char>, a: int)
    requires
        0 <= a <= s.len(),
        forall|i: int| 0 <= i < a ==> is_ws(s[i]),
    ensures
        trim_start(s) == trim_start(s.skip(a)),
    decreases a,
{
    if a > 0 {
        lemma_trim_start_skip(s.drop_first(), a - 1);
        assert(s.drop_first().skip(a - 1) =~= s.skip(a));
    } else {
        assert(s.skip(0) =~= s);
    }
}

proof fn lemma_trim_end_take(s: Seq<char>, b: int)
    requires
        0 <= b <= s.len(),
        forall|i: int| b <= i < s.len() ==> is_ws(s[i]),
    ensures
        trim_end(s) == trim_end(s.take(b)),
    decreases s.len() - b,
{
    if b < s.len() {
        assert(is_ws(s.last()));
        lemma_trim_end_take(s.drop_last(), b);
        assert(s.drop_last().take(b) =~= s.take(b));
    } else {
        assert(s.take(b) =~= s);
    }
}

/// Whether `s` holds whitespace only.
pub open spec fn all_ws(s: Seq<char>) -> bool {
    forall|i: int| 0 <= i < s.len() ==> is_ws(#[trigger] s[i])
}

/// Whether `s` holds no whitespace.
pub open spec fn no_ws(s: Seq<char>) -> bool {
    forall|i: int| 0 <= i < s.len() ==> !is_ws(#[trigger] s[i])
}

/// A text without whitespace has nothing to trim.
pub proof fn lemma_trim_no_ws(s: Seq<char>)
    requires
        no_ws(s),
    ensures
        trim(s) == s,
{
    if s.len() > 0 {
        assert(!is_ws(s[0]));
        assert(!is_ws(s[s.len() - 1]));
    }
}

/// Trimming the start of whitespace only leaves nothing.
proof fn lemma_trim_start_all_ws(b: Seq<char>)
    requires
        all_ws(b),
    ensures
        trim_start(b).len() == 0,
    decreases b.len(),
{
    if b.len() > 0 {
        assert(is_ws(b[0]));
        assert forall|i: int| 0 <= i < b.drop_first().len() implies is_ws(
            #[trigger] b.drop_first()[i],
        ) by {
            assert(b.drop_first()[i] == b[i + 1]);
        }
        lemma_trim_start_all_ws(b.drop_first());
    }
}

/// Trimming the start of `s + b` trims the start of `s`, unless `s` is all
/// whitespace, when it trims the start of `b`.
proof fn lemma_trim_start_append(s: Seq<char>, b: Seq<char>)
    ensures
        trim_start(s).len() > 0 ==> trim_start(s + b) == trim_start(s) + b,
        trim_start(s).len() == 0 ==> trim_start(s + b) == trim_start(b),
    decreases s.len(),
{
    if s.len() == 0 {
        assert(s + b =~= b);
    } else {
        assert((s + b)[0] == s[0]);
        if is_ws(s[0]) {
            assert((s + b).drop_first() =~= s.drop_first() + b);
            lemma_trim_start_append(s.drop_first(), b);
        }
    }
}

/// Trailing whitespace does not change what trimming the end leaves.
proof fn lemma_trim_end_append_ws(x: Seq<char>, b: Seq<char>)
    requires
        all_ws(b),
    ensures
        trim_end(x + b) == trim_end(x),
    decreases b.len(),
{
    if b.len() == 0 {
        assert(x + b =~= x);
    } else {
        assert((x + b).last() == b.last());
        assert(is_ws(b[b.len() - 1]));
        assert((x + b).drop_last() =~= x + b.drop_last());
        assert forall|i: int| 0 <= i < b.drop_last().len() implies is_ws(
            #[trigger] b.drop_last()[i],
        ) by {
            assert(b.drop_last()[i] == b[i]);
        }
        lemma_trim_end_append_ws(x, b.drop_last());
    }
}

/// Whitespace around a text does not change its trimmed text.
pub proof fn lemma_trim_surrounded(a: Seq<char>, s: Seq<char>, b: Seq<char>)
    requires
        all_ws(a),
        all_ws(b),
    ensures
        trim(a + s + b) == trim(s),
{
    let x = a + s + b;
    assert forall|i: int| 0 <= i < a.len() implies is_ws(x[i]) by {
        assert(x[i] == a[i]);
    }
    lemma_trim_start_skip(x, a.len() as int);
    assert(x.skip(a.len() as int) =~= s + b);
    lemma_trim_start_append(s, b);
    if trim_start(s).len() > 0 {
        lemma_trim_end_append_ws(trim_start(s), b);
    } else {
        lemma_trim_start_all_ws(b);
        assert(trim_start(s) =~= trim_start(b));
    }
}

/// The characters of `v` without leading and trailing whitespace.
pub fn trim_chars(v: &Vec<char>) -> (r: Vec<char>)
    ensures
        r@ == trim(v@),
{
    let mut a: usize = 0;
    while a < v.len() && is_whitespace(v[a])
        invariant
            a <= v.len(),
            forall|i: int| 0 <= i < a ==> is_ws(v@[i]),
        decreases v.len() - a,
    {
        a = a + 1;
    }
    let mut b: usize = v.len();
    while b > a && is_whitespace(v[b - 1])
        invariant
            a <= b <= v.len(),
            forall|i: int| b <= i < v.len() ==> is_ws(v@[i]),
        decreases b,
    {
        b = b - 1;
    }
    proof {
        lemma_trim_start_skip(v@, a as int);
        let t = v@.skip(a as int);
        assert(trim_start(t) == t);
        lemma_trim_end_take(t, (b - a) as int);
        assert(t.take((b - a) as int) =~= v@.subrange(a as int, b as int));
        let u = v@.subrange(a as int, b as int);
        if u.len() > 0 {
            assert(!is_ws(u.last()));
        }
        assert(trim_end(u) == u);
    }
    slice_chars(v, a, b)
}

// ------------------------------------------------------------------
// Words (std `str::split_whitespace`)
// ------------------------------------------------------------------

/// Scanning `s` left to right: the words already closed, and the word being read.
pub open spec fn ws_scan(s: Seq<char>) -> (Seq<Seq<char>>, Seq<char>)
    decreases s.len(),
{
    if s.len() == 0 {
        (seq![], seq![])
    } else {
        let prev = ws_scan(s.drop_last());
        let c = s.last();
        if is_ws(c) {
            if prev.1.len() > 0 {
                (prev.0.push(prev.1), seq![])
            } else {
                (prev.0, seq![])
            }
        } else {
            (prev.0, prev.1.push(c))
        }
    }
}

/// The maximal runs of non-whitespace characters of `s`, in order.
pub open spec fn words(s: Seq<char>) -> Seq<Seq<char>> {
    let st = ws_scan(s);
    if st.1.len() > 0 {
        st.0.push(st.1)
    } else {
        st.0
    }
}

/// The words of `v`.
pub fn words_of(v: &Vec<char>) -> (r: Vec<Vec<char>>)
    ensures
        views(r@) == words(v@),
{
    let mut done: Vec<Vec<char>> = Vec::new();
    let mut cur: Vec<char> = Vec::new();
    let mut i: usize = 0;
    while i < v.len()
        invariant
            i <= v.len(),
            (views(done@), cur@) == ws_scan(v@.take(i as int)),
        decreases v.len() - i,
    {
        let c = v[i];
        proof {
            assert(v@.take(i + 1).drop_last() =~= v@.take(i as int));
            assert(v@.take(i + 1).last() == c);
        }
        if is_whitespace(c) {
            if cur.len() > 0 {
                let w = cur;
                done.push(w);
                cur = Vec::new();
                assert(views(done@) =~= ws_scan(v@.take(i as int)).0.push(w@));
            } else {
                cur = Vec::new();
            }
        } else {
            cur.push(c);
        }
        assert(cur@ =~= ws_scan(v@.take(i + 1)).1);
        i = i + 1;
    }
    assert(v@.take(v.len() as int) =~= v@);
    if cur.len() > 0 {
        let ghost d = views(done@);
        let ghost cv = cur@;
        done.push(cur);
        assert(views(done@) =~= d.push(cv));
    }
    done
}

/// `ws` joined with `sep` between consecutive elements.
pub open spec fn join(ws: Seq<Seq<char>>, sep: Seq<char>) -> Seq<char>
    decreases ws.len(),
{
    if ws.len() == 0 {
        seq![]
    } else if ws.len() == 1 {
        ws[0]
    } else {
        join(ws.drop_last(), sep) + sep + ws.last()
    }
}

/// The elements of `ws` joined with `sep` between them.
pub fn join_chars(ws: &Vec<Vec<char>>, sep: &Vec<char>) -> (r: Vec<char>)
    ensures
        r@ == join(views(ws@), sep@),
{
    let mut r: Vec<char> = Vec::new();
    let mut i: usize = 0;
    while i < ws.len()
        invariant
            i <= ws.len(),
            r@ == join(views(ws@).take(i as int), sep@),
        decreases ws.len() - i,
    {
        let ghost before = r@;
        if i > 0 {
            push_all(&mut r, sep);
        }
        push_all(&mut r, &ws[i]);
        proof {
            let t = views(ws@).take(i + 1);
            assert(t.drop_last() =~= views(ws@).take(i as int));
            assert(t.last() == ws[i as int]@);
            if i == 0 {
                assert(before =~= Seq::<char>::empty());
                assert(r@ =~= t[0]);
            }
        }
        i = i + 1;
    }
    assert(views(ws@).take(ws.len() as int) =~= views(ws@));
    r
}

/// Whether `w` is a word: non-empty, with no whitespace in it.
pub open spec fn is_word(w: Seq<char>) -> bool {
    w.len() > 0 && forall|i: int| 0 <= i < w.len() ==> !is_ws(#[trigger] w[i])
}

/// The scan only ever holds words: closed ones are words, the open one has no
/// whitespace.
proof fn lemma_ws_scan_words(s: Seq<char>)
    ensures
        forall|i: int| 0 <= i < ws_scan(s).0.len() ==> is_word(#[trigger] ws_scan(s).0[i]),
        forall|i: int| 0 <= i < ws_scan(s).1.len() ==> !is_ws(#[trigger] ws_scan(s).1[i]),
    decreases s.len(),
{
    if s.len() > 0 {
        lemma_ws_scan_words(s.drop_last());
        let prev = ws_scan(s.drop_last());
        if !is_ws(s.last()) {
            assert forall|i: int| 0 <= i < ws_scan(s).1.len() implies !is_ws(
                #[trigger] ws_scan(s).1[i],
            ) by {
                if i < prev.1.len() {
                    assert(ws_scan(s).1[i] == prev.1[i]);
                }
            }
        }
    }
}

/// The words of a text are words.
pub proof fn lemma_words_are_words(s: Seq<char>)
    ensures
        forall|i: int| 0 <= i < words(s).len() ==> is_word(#[trigger] words(s)[i]),
{
    lemma_ws_scan_words(s);
    let st = ws_scan(s);
    if st.1.len() > 0 {
        assert forall|i: int| 0 <= i < words(s).len() implies is_word(#[trigger] words(s)[i]) by {
            if i < st.0.len() {
                assert(words(s)[i] == st.0[i]);
            } else {
                assert(words(s)[i] == st.1);
            }
        }
    }
}

/// Reading characters without whitespace extends the open word.
proof fn lemma_ws_scan_append_word(y: Seq<char>, w: Seq<char>)
    requires
        forall|i: int| 0 <= i < w.len() ==> !is_ws(#[trigger] w[i]),
    ensures
        ws_scan(y + w) == (ws_scan(y).0, ws_scan(y).1 + w),
    decreases w.len(),
{
    if w.len() == 0 {
        assert(y + w =~= y);
        assert(ws_scan(y).1 + w =~= ws_scan(y).1);
    } else {
        lemma_ws_scan_append_word(y, w.drop_last());
        assert((y + w).drop_last() =~= y + w.drop_last());
        assert((y + w).last() == w.last());
        assert(ws_scan(y).1 + w.drop_last() + seq![w.last()] =~= ws_scan(y).1 + w);
        assert((ws_scan(y).1 + w.drop_last()).push(w.last()) =~= ws_scan(y).1 + w);
    }
}

/// Scanning words joined by single spaces closes all words but the last,
/// which stays open.
proof fn lemma_ws_scan_join(ws: Seq<Seq<char>>)
    requires
        ws.len() > 0,
        forall|i: int| 0 <= i < ws.len() ==> is_word(#[trigger] ws[i]),
    ensures
        ws_scan(join(ws, " "@)) == (ws.drop_last(), ws.last()),
    decreases ws.len(),
{
    reveal_strlit(" ");
    let w = ws.last();
    assert(is_word(ws[ws.len() - 1]));
    if ws.len() == 1 {
        lemma_ws_scan_append_word(Seq::<char>::empty(), w);
        assert(Seq::<char>::empty() + w =~= w);
        assert(ws.drop_last() =~= Seq::<Seq<char>>::empty());
    } else {
        let p = ws.drop_last();
        assert forall|i: int| 0 <= i < p.len() implies is_word(#[trigger] p[i]) by {
            assert(p[i] == ws[i]);
        }
        lemma_ws_scan_join(p);
        let y = join(p, " "@) + " "@;
        let sp = y.drop_last();
        assert(sp =~= join(p, " "@));
        assert(y.last() == ' ');
        assert(is_word(p.last()));
        assert(ws_scan(y) == (p.drop_last().push(p.last()), Seq::<char>::empty()));
        assert(p.drop_last().push(p.last()) =~= p);
        lemma_ws_scan_append_word(y, w);
        assert(join(ws, " "@) == y + w);
        assert(Seq::<char>::empty() + w =~= w);
    }
}

/// The words of words joined by single spaces are those words.
pub proof fn lemma_words_of_join(ws: Seq<Seq<char>>)
    requires
        forall|i: int| 0 <= i < ws.len() ==> is_word(#[trigger] ws[i]),
    ensures
        words(join(ws, " "@)) == ws,
{
    if ws.len() == 0 {
        assert(ws_scan(seq![]) == (Seq::<Seq<char>>::empty(), Seq::<char>::empty()));
        assert(ws =~= Seq::<Seq<char>>::empty());
    } else {
        lemma_ws_scan_join(ws);
        assert(is_word(ws[ws.len() - 1]));
        assert(ws.drop_last().push(ws.last()) =~= ws);
    }
}

/// Words joined by single spaces start and end with a word's character.
proof fn lemma_join_ends(ws: Seq<Seq<char>>)
    requires
        ws.len() > 0,
        forall|i: int| 0 <= i < ws.len() ==> is_word(#[trigger] ws[i]),
    ensures
        join(ws, " "@).len() > 0,
        join(ws, " "@)[0] == ws[0][0],
        join(ws, " "@).last() == ws.last().last(),
    decreases ws.len(),
{
    assert(is_word(ws[0]));
    assert(is_word(ws[ws.len() - 1]));
    if ws.len() > 1 {
        let p = ws.drop_last();
        assert forall|i: int| 0 <= i < p.len() implies is_word(#[trigger] p[i]) by {
            assert(p[i] == ws[i]);
        }
        lemma_join_ends(p);
        assert(p[0] == ws[0]);
    }
}

/// Words joined by single spaces have nothing to trim.
pub proof fn lemma_trim_join(ws: Seq<Seq<char>>)
    requires
        forall|i: int| 0 <= i < ws.len() ==> is_word(#[trigger] ws[i]),
    ensures
        trim(join(ws, " "@)) == join(ws, " "@),
{
    let j = join(ws, " "@);
    if ws.len() == 0 {
        assert(j.len() == 0);
    } else {
        lemma_join_ends(ws);
        assert(is_word(ws[0]));
        assert(is_word(ws[ws.len() - 1]));
        assert(!is_ws(ws[0][0]));
        assert(!is_ws(ws.last()[ws.last().len() - 1]));
        assert(trim_start(j) == j);
        assert(trim_end(j) == j);
    }
}

// ------------------------------------------------------------------
// UTF-8 widths
// ------------------------------------------------------------------

/// The number of bytes of the UTF-8 encoding of `c`.
pub open spec fn char_width(c: char) -> nat {
    if (c as u32) < 0x80 {
        1
    } else if (c as u32) < 0x800 {
        2
    } else if (c as u32) < 0x10000 {
        3
    } else {
        4
    }
}

/// The number of bytes of the UTF-8 encoding of `s` (std `str::len`).
pub open spec fn byte_len(s: Seq<char>) -> nat
    decreases s.len(),
{
    if s.len() == 0 {
        0
    } else {
        byte_len(s.drop_last()) + char_width(s.last())
    }
}

/// The width in bytes of `c` encoded in UTF-8 (std `char::len_utf8`).
pub fn utf8_width(c: char) -> (w: usize)
    ensures
        w == char_width(c),
{
    let u = c as u32;
    if u < 0x80 {
        1
    } else if u < 0x800 {
        2
    } else if u < 0x10000 {
        3
    } else {
        4
    }
}

/// The longest prefix of `s` whose UTF-8 encoding takes at most `max` bytes.
pub open spec fn longest_fitting_prefix(s: Seq<char>, max: nat) -> Seq<char>
    decreases s.len(),
{
    if byte_len(s) <= max || s.len() == 0 {
        s
    } else {
        longest_fitting_prefix(s.drop_last(), max)
    }
}

proof fn lemma_byte_len_take_step(s: Seq<char>, j: int)
    requires
        0 <= j < s.len(),
    ensures
        byte_len(s.take(j + 1)) == byte_len(s.take(j)) + char_width(s[j]),
{
    assert(s.take(j + 1).drop_last() =~= s.take(j));
}

proof fn lemma_byte_len_take_mono(s: Seq<char>, i: int, j: int)
    requires
        0 <= i <= j <= s.len(),
    ensures
        byte_len(s.take(i)) <= byte_len(s.take(j)),
    decreases j - i,
{
    if i < j {
        lemma_byte_len_take_mono(s, i, j - 1);
        lemma_byte_len_take_step(s, j - 1);
    }
}

proof fn lemma_longest_fitting_prefix(s: Seq<char>, i: int, max: nat)
    requires
        0 <= i <= s.len(),
        byte_len(s.take(i)) <= max,
        i < s.len() ==> byte_len(s.take(i + 1)) > max,
    ensures
        longest_fitting_prefix(s, max) == s.take(i),
    decreases s.len(),
{
    if i == s.len() {
        assert(s.take(i) =~= s);
    } else {
        lemma_byte_len_take_mono(s, i + 1, s.len() as int);
        assert(s.take(s.len() as int) =~= s);
        let d = s.drop_last();
        assert(d.take(i) =~= s.take(i));
        if i + 1 <= d.len() {
            assert(d.take(i + 1) =~= s.take(i + 1));
        }
        lemma_longest_fitting_prefix(d, i, max);
    }
}

/// The longest fitting prefix is the first `k` characters for some `k` such
/// that those fit and, unless they are all of `s`, one more would not.
pub proof fn lemma_fitting_prefix_is_maximal(s: Seq<char>, max: nat)
    ensures
        exists|k: int|
            #![trigger s.take(k)]
            0 <= k <= s.len() && longest_fitting_prefix(s, max) == s.take(k) && byte_len(s.take(k))
                <= max && (k < s.len() ==> byte_len(s.take(k + 1)) > max),
    decreases s.len(),
{
    if byte_len(s) <= max {
        assert(s.take(s.len() as int) =~= s);
    } else if s.len() == 0 {
    } else {
        let d = s.drop_last();
        lemma_fitting_prefix_is_maximal(d, max);
        let k = choose|k: int|
            #![trigger d.take(k)]
            0 <= k <= d.len() && longest_fitting_prefix(d, max) == d.take(k) && byte_len(d.take(k))
                <= max && (k < d.len() ==> byte_len(d.take(k + 1)) > max);
        assert(d.take(k) =~= s.take(k));
        if k < d.len() {
            assert(d.take(k + 1) =~= s.take(k + 1));
        } else {
            assert(s.take(k + 1) =~= s);
        }
    }
}

/// Splits `v` at the longest prefix that fits in `max` bytes: returns its length,
/// and whether the whole of `v` fits.
pub fn fitting_prefix_len(v: &Vec<char>, max: usize) -> (r: (usize, bool))
    ensures
        r.0 <= v.len(),
        v@.take(r.0 as int) == longest_fitting_prefix(v@, max as nat),
        r.1 == (byte_len(v@) <= max),
        r.1 ==> r.0 == v.len(),
{
    let mut acc: usize = 0;
    let mut i: usize = 0;
    while i < v.len()
        invariant
            i <= v.len(),
            acc == byte_len(v@.take(i as int)),
            acc <= max,
        decreases v.len() - i,
    {
        let w = utf8_width(v[i]);
        proof {
            lemma_byte_len_take_step(v@, i as int);
        }
        if w > max - acc {
            proof {
                lemma_longest_fitting_prefix(v@, i as int, max as nat);
                lemma_byte_len_take_mono(v@, i + 1, v.len() as int);
                assert(v@.take(v.len() as int) =~= v@);
            }
            return (i, false);
        }
        acc = acc + w;
        i = i + 1;
    }
    proof {
        lemma_longest_fitting_prefix(v@, i as int, max as nat);
        assert(v@.take(v.len() as int) =~= v@);
    }
    (i, true)
}

// ------------------------------------------------------------------
// Digits
// ------------------------------------------------------------------

/// Whether `c` is one of the ASCII digits `0`..`9`.
pub open spec fn is_digit(c: char) -> bool {
    '0' <= c && c <= '9'
}

/// The value of the ASCII digit `c`.
pub open spec fn digit_of(c: char) -> nat {
    ((c as u32) - 48) as nat
}

/// The character of the decimal digit `d`.
pub open spec fn digit_char(d: nat) -> char {
    ((d + 48) as u8) as char
}

/// The value of a sequence of decimal digits, most significant first.
pub open spec fn digits_value(s: Seq<char>) -> nat
    decreases s.len(),
{
    if s.len() == 0 {
        0
    } else {
        digits_value(s.drop_last()) * 10 + digit_of(s.last())
    }
}

/// Whether every character of `s` is an ASCII digit.
pub open spec fn all_digits(s: Seq<char>) -> bool {
    forall|i: int| 0 <= i < s.len() ==> is_digit(#[trigger] s[i])
}

/// std's parse of an unsigned integer bounded by `max`: an optional `+`,
/// then one or more ASCII digits whose value is at most `max`.
pub open spec fn parse_uint(s: Seq<char>, max: nat) -> Option<nat> {
    let t = if s.len() > 0 && s[0] == '+' {
        s.drop_first()
    } else {
        s
    };
    if t.len() > 0 && all_digits(t) && digits_value(t) <= max {
        Some(digits_value(t))
    } else {
        None
    }
}

/// The value of digits `v[from..to]`, or `None` when it exceeds `max`.
pub fn digits_value_upto(v: &Vec<char>, from: usize, to: usize, max: u64) -> (r: Option<u64>)
    requires
        from <= to <= v.len(),
        all_digits(v@.subrange(from as int, to as int)),
    ensures
        r is Some <==> digits_value(v@.subrange(from as int, to as int)) <= max,
        r matches Some(n) ==> n == digits_value(v@.subrange(from as int, to as int)),
{
    let mut acc: u64 = 0;
    let mut i = from;
    while i < to
        invariant
            from <= i <= to <= v.len(),
            all_digits(v@.subrange(from as int, to as int)),
            acc == digits_value(v@.subrange(from as int, i as int)),
            acc <= max,
        decreases to - i,
    {
        let c = v[i];
        proof {
            let s = v@.subrange(from as int, i + 1);
            assert(s.drop_last() =~= v@.subrange(from as int, i as int));
            assert(s.last() == c);
            assert(v@.subrange(from as int, to as int)[i - from] == c);
        }
        let d = (c as u32 - 48) as u64;
        let next: u128 = acc as u128 * 10 + d as u128;
        if next > max as u128 {
            proof {
                lemma_digits_value_prefix_le(
                    v@.subrange(from as int, to as int),
                    (i + 1 - from) as int,
                );
                assert(v@.subrange(from as int, to as int).take((i + 1 - from) as int)
                    =~= v@.subrange(from as int, i + 1));
            }
            return None;
        }
        acc = next as u64;
        i = i + 1;
    }
    Some(acc)
}

proof fn lemma_digits_value_prefix_le(s: Seq<char>, k: int)
    requires
        0 <= k <= s.len(),
    ensures
        digits_value(s.take(k)) <= digits_value(s),
    decreases s.len() - k,
{
    if k < s.len() {
        lemma_digits_value_prefix_le(s.drop_last(), k);
        assert(s.drop_last().take(k) =~= s.take(k));
        assert(digits_value(s.drop_last()) <= digits_value(s)) by (nonlinear_arith)
            requires digits_value(s) == digits_value(s.drop_last()) * 10 + digit_of(s.last());
    } else {
        assert(s.take(k) =~= s);
    }
}

/// Whether the characters `v[from..to]` are all ASCII digits.
pub fn all_digits_in(v: &Vec<char>, from: usize, to: usize) -> (r: bool)
    requires
        from <= to <= v.len(),
    ensures
        r == all_digits(v@.subrange(from as int, to as int)),
{
    let mut i = from;
    while i < to
        invariant
            from <= i <= to <= v.len(),
            forall|j: int| from <= j < i ==> is_digit(v@[j]),
        decreases to - i,
    {
        if !('0' <= v[i] && v[i] <= '9') {
            assert(!is_digit(v@.subrange(from as int, to as int)[i - from]));
            return false;
        }
        i = i + 1;
    }
    assert forall|j: int| 0 <= j < to - from implies is_digit(
        #[trigger] v@.subrange(from as int, to as int)[j],
    ) by {
        assert(v@.subrange(from as int, to as int)[j] == v@[from + j]);
    }
    true
}

/// std's `str::parse` of an unsigned integer bounded by `max`.
pub fn parse_uint_chars(v: &Vec<char>, max: u64) -> (r: Option<u64>)
    ensures
        r matches Some(n) ==> parse_uint(v@, max as nat) == Some(n as nat),
        r is None ==> parse_uint(v@, max as nat) is None,
{
    let from: usize = if v.len() > 0 && v[0] == '+' {
        1
    } else {
        0
    };
    proof {
        if from == 1 {
            assert(v@.drop_first() =~= v@.subrange(1, v.len() as int));
        } else {
            assert(v@ =~= v@.subrange(0, v.len() as int));
        }
    }
    if from == v.len() {
        return None;
    }
    if !all_digits_in(v, from, v.len()) {
        return None;
    }
    digits_value_upto(v, from, v.len(), max)
}

/// The decimal digits of `n`, most significant first, without leading zeros.
pub open spec fn dec_digits(n: nat) -> Seq<char>
    decreases n,
{
    if n < 10 {
        seq![digit_char(n)]
    } else {
        dec_digits(n / 10).push(digit_char(n % 10))
    }
}

/// The decimal digits of `n` (std `u64::to_string`).
pub fn dec_chars(n: u64) -> (r: Vec<char>)
    ensures
        r@ == dec_digits(n as nat),
    decreases n,
{
    if n < 10 {
        let c = ((n + 48) as u8) as char;
        let mut v: Vec<char> = Vec::new();
        v.push(c);
        assert(v@ =~= seq![digit_char(n as nat)]);
        v
    } else {
        let mut v = dec_chars(n / 10);
        let c = ((n % 10 + 48) as u8) as char;
        v.push(c);
        v
    }
}

/// The decimal text of `n`.
pub fn dec_string(n: u64) -> (r: String)
    ensures
        r@ == dec_digits(n as nat),
{
    let v = dec_chars(n);
    string_of(&v)
}

/// The decimal text of an integer, `-` first when it is negative.
pub open spec fn int_text(n: int) -> Seq<char> {
    if n < 0 {
        "-"@ + dec_digits((-n) as nat)
    } else {
        dec_digits(n as nat)
    }
}

/// The decimal text of `n` (std `i64::to_string`).
pub fn i64_chars(n: i64) -> (r: Vec<char>)
    ensures
        r@ == int_text(n as int),
{
    if n < 0 {
        let p: i64 = -(n + 1);
        let m: u64 = (p as u64) + 1;
        assert(m == -n);
        let mut v = chars_of("-");
        let d = dec_chars(m);
        push_all(&mut v, &d);
        v
    } else {
        dec_chars(n as u64)
    }
}

/// The lowercase hexadecimal digit of `d` (`0`..`9`, `a`..`f`).
pub open spec fn hex_char(d: nat) -> char {
    if d < 10 {
        digit_char(d)
    } else {
        ((d - 10 + 97) as u8) as char
    }
}

/// The last `k` lowercase hexadecimal digits of `n`, zero-padded.
pub open spec fn hex_fixed(n: nat, k: nat) -> Seq<char>
    decreases k,
{
    if k == 0 {
        seq![]
    } else {
        hex_fixed(n / 16, (k - 1) as nat).push(hex_char(n % 16))
    }
}

/// The last `k` hexadecimal digits of `n`.
pub fn hex_fixed_chars(n: u64, k: usize) -> (r: Vec<char>)
    ensures
        r@ == hex_fixed(n as nat, k as nat),
    decreases k,
{
    if k == 0 {
        Vec::new()
    } else {
        let mut v = hex_fixed_chars(n / 16, k - 1);
        let d = n % 16;
        let c = if d < 10 {
            ((d + 48) as u8) as char
        } else {
            ((d - 10 + 97) as u8) as char
        };
        v.push(c);
        v
    }
}

// ------------------------------------------------------------------
// Splitting
// ------------------------------------------------------------------

/// Scanning `s` left to right for `sep`: the pieces closed so far, and the open piece.
pub open spec fn split_scan(s: Seq<char>, sep: char) -> (Seq<Seq<char>>, Seq<char>)
    decreases s.len(),
{
    if s.len() == 0 {
        (seq![], seq![])
    } else {
        let prev = split_scan(s.drop_last(), sep);
        if s.last() == sep {
            (prev.0.push(prev.1), seq![])
        } else {
            (prev.0, prev.1.push(s.last()))
        }
    }
}

/// The pieces of `s` between occurrences of `sep` (std `str::split` on a char).
pub open spec fn split_on(s: Seq<char>, sep: char) -> Seq<Seq<char>> {
    let st = split_scan(s, sep);
    st.0.push(st.1)
}

/// The pieces of `v` between occurrences of `sep`.
pub fn split_chars(v: &Vec<char>, sep: char) -> (r: Vec<Vec<char>>)
    ensures
        views(r@) == split_on(v@, sep),
{
    let mut done: Vec<Vec<char>> = Vec::new();
    let mut cur: Vec<char> = Vec::new();
    let mut i: usize = 0;
    while i < v.len()
        invariant
            i <= v.len(),
            (views(done@), cur@) == split_scan(v@.take(i as int), sep),
        decreases v.len() - i,
    {
        let c = v[i];
        proof {
            assert(v@.take(i + 1).drop_last() =~= v@.take(i as int));
            assert(v@.take(i + 1).last() == c);
        }
        if c == sep {
            let w = cur;
            done.push(w);
            cur = Vec::new();
            assert(views(done@) =~= split_scan(v@.take(i as int), sep).0.push(w@));
        } else {
            cur.push(c);
        }
        assert(cur@ =~= split_scan(v@.take(i + 1), sep).1);
        i = i + 1;
    }
    assert(v@.take(v.len() as int) =~= v@);
    let ghost d = views(done@);
    let ghost cv = cur@;
    done.push(cur);
    assert(views(done@) =~= d.push(cv));
    done
}

/// `s` with every leading repetition of `p` removed (std `str::trim_start_matches`).
pub open spec fn strip_prefix_all(s: Seq<char>, p: Seq<char>) -> Seq<char>
    decreases s.len(),
{
    if p.len() > 0 && has_prefix(s, p) {
        strip_prefix_all(s.skip(p.len() as int), p)
    } else {
        s
    }
}

/// `v` with every leading repetition of `p` removed.
pub fn strip_prefix_all_chars(v: &Vec<char>, p: &Vec<char>) -> (r: Vec<char>)
    ensures
        r@ == strip_prefix_all(v@, p@),
    decreases v.len(),
{
    if p.len() > 0 && starts_with(v, p) {
        let rest = slice_chars(v, p.len(), v.len());
        assert(rest@ =~= v@.skip(p.len() as int));
        strip_prefix_all_chars(&rest, p)
    } else {
        slice_chars(v, 0, v.len())
    }
}

// ------------------------------------------------------------------
// Case
// ------------------------------------------------------------------

/// std `char::to_ascii_lowercase`: `A` to `Z` become `a` to `z`, any other
/// character stays.
pub open spec fn ascii_lower(c: char) -> char {
    if 'A' <= c && c <= 'Z' {
        ((c as u32) + 32) as char
    } else {
        c
    }
}

/// std `char::to_ascii_uppercase`: `a` to `z` become `A` to `Z`, any other
/// character stays.
pub open spec fn ascii_upper(c: char) -> char {
    if 'a' <= c && c <= 'z' {
        ((c as u32) - 32) as char
    } else {
        c
    }
}

/// Whether every character of `s` is ASCII.
pub open spec fn is_ascii_text(s: Seq<char>) -> bool {
    forall|i: int| 0 <= i < s.len() ==> ((#[trigger] s[i]) as u32) < 128
}

/// `s` with its ASCII letters lowercased (std `str::to_ascii_lowercase`).
pub open spec fn ascii_lowered(s: Seq<char>) -> Seq<char> {
    s.map_values(|c: char| ascii_lower(c))
}

/// `s` with its ASCII letters uppercased (std `str::to_ascii_uppercase`).
pub open spec fn ascii_uppered(s: Seq<char>) -> Seq<char> {
    s.map_values(|c: char| ascii_upper(c))
}

/// The result of std's `str::to_lowercase` (the Unicode lowercase mapping).
pub uninterp spec fn spec_to_lowercase(s: Seq<char>) -> Seq<char>;

/// std `str::to_lowercase`: the Unicode lowercase mapping of `s`. The result
/// is named. Two facts of it are stated. An all-ASCII text is lowercased as
/// `to_ascii_lowercase` does (Unicode maps `A` to `Z` to `a` to `z` and keeps
/// the other ASCII characters). And lowercasing the ASCII letters first
/// changes nothing: each character is mapped on its own, `A` to `Z` to what
/// `a` to `z` map to, and the one rule that looks at the neighbours (a final
/// `Σ` becomes `ς`) asks only whether they are cased letters, which ASCII
/// letters are in either case.
#[verifier::external_body]
pub(crate) fn to_lowercase(s: &str) -> (r: String)
    ensures
        r@ == spec_to_lowercase(s@),
        r@ == spec_to_lowercase(ascii_lowered(s@)),
        is_ascii_text(s@) ==> r@ == ascii_lowered(s@),
{
    s.to_lowercase()
}

/// Trimming the start of a text leaves one of its suffixes.
proof fn lemma_trim_start_suffix(s: Seq<char>)
    ensures
        exists|k: int| 0 <= k <= s.len() && trim_start(s) == #[trigger] s.skip(k),
    decreases s.len(),
{
    if s.len() > 0 && is_ws(s[0]) {
        lemma_trim_start_suffix(s.drop_first());
        let k = choose|k: int|
            0 <= k <= s.drop_first().len() && trim_start(s.drop_first()) == #[trigger] s.drop_first().skip(
                k,
            );
        assert(s.drop_first().skip(k) =~= s.skip(k + 1));
    } else {
        assert(s.skip(0) =~= s);
    }
}

/// Trimming the end of a text leaves one of its prefixes.
proof fn lemma_trim_end_prefix(s: Seq<char>)
    ensures
        exists|k: int| 0 <= k <= s.len() && trim_end(s) == #[trigger] s.take(k),
    decreases s.len(),
{
    if s.len() > 0 && is_ws(s.last()) {
        lemma_trim_end_prefix(s.drop_last());
        let k = choose|k: int|
            0 <= k <= s.drop_last().len() && trim_end(s.drop_last()) == #[trigger] s.drop_last().take(k);
        assert(s.drop_last().take(k) =~= s.take(k));
    } else {
        assert(s.take(s.len() as int) =~= s);
    }
}

/// What holds of every character of a text holds of every character of the
/// trimmed text.
pub proof fn lemma_trim_keeps(s: Seq<char>, p: spec_fn(char) -> bool)
    requires
        forall|i: int| 0 <= i < s.len() ==> p(#[trigger] s[i]),
    ensures
        forall|i: int| 0 <= i < trim(s).len() ==> p(#[trigger] trim(s)[i]),
{
    lemma_trim_start_suffix(s);
    let a = choose|k: int| 0 <= k <= s.len() && trim_start(s) == #[trigger] s.skip(k);
    let u = trim_start(s);
    lemma_trim_end_prefix(u);
    let b = choose|k: int| 0 <= k <= u.len() && trim_end(u) == #[trigger] u.take(k);
    assert forall|i: int| 0 <= i < trim(s).len() implies p(#[trigger] trim(s)[i]) by {
        assert(trim(s)[i] == u[i]);
        assert(u[i] == s[i + a]);
    }
}

/// Trimming the start commutes with a character map that keeps whitespace
/// and other characters apart.
proof fn lemma_trim_start_map(s: Seq<char>, f: spec_fn(char) -> char)
    requires
        forall|c: char| is_ws(#[trigger] f(c)) == is_ws(c),
    ensures
        trim_start(s.map_values(f)) == trim_start(s).map_values(f),
    decreases s.len(),
{
    let m = s.map_values(f);
    if s.len() > 0 {
        assert(m[0] == f(s[0]));
        if is_ws(s[0]) {
            assert(m.drop_first() =~= s.drop_first().map_values(f));
            lemma_trim_start_map(s.drop_first(), f);
        }
    } else {
        assert(m =~= s.map_values(f));
    }
}

/// Trimming the end commutes with a character map that keeps whitespace and
/// other characters apart.
proof fn lemma_trim_end_map(s: Seq<char>, f: spec_fn(char) -> char)
    requires
        forall|c: char| is_ws(#[trigger] f(c)) == is_ws(c),
    ensures
        trim_end(s.map_values(f)) == trim_end(s).map_values(f),
    decreases s.len(),
{
    let m = s.map_values(f);
    if s.len() > 0 {
        assert(m.last() == f(s.last()));
        if is_ws(s.last()) {
            assert(m.drop_last() =~= s.drop_last().map_values(f));
            lemma_trim_end_map(s.drop_last(), f);
        }
    }
}

/// Trimming commutes with a character map that keeps whitespace and other
/// characters apart.
pub proof fn lemma_trim_map(s: Seq<char>, f: spec_fn(char) -> char)
    requires
        forall|c: char| is_ws(#[trigger] f(c)) == is_ws(c),
    ensures
        trim(s.map_values(f)) == trim(s).map_values(f),
{
    lemma_trim_start_map(s, f);
    lemma_trim_end_map(trim_start(s), f);
}

// ------------------------------------------------------------------
// Bytes
// ------------------------------------------------------------------

/// std `String::from_utf8`: the text of `bytes` when they are valid UTF-8,
/// `None` otherwise.
#[verifier::external_body]
pub(crate) fn utf8_text(bytes: Vec<u8>) -> (r: Option<String>)
    ensures
        r is Some <==> valid_utf8(bytes@),
        r matches Some(s) ==> s@ == decode_utf8(bytes@),
{
    String::from_utf8(bytes).ok()
}

/// What std's `String::from_utf8_lossy` makes of some bytes.
pub uninterp spec fn spec_utf8_lossy(bytes: Seq<u8>) -> Seq<char>;

/// std `String::from_utf8_lossy`, as an owned string: the text of `bytes`,
/// each invalid sequence replaced by U+FFFD; valid UTF-8 is decoded as is.
#[verifier::external_body]
pub(crate) fn utf8_lossy(bytes: &[u8]) -> (r: String)
    ensures
        r@ == spec_utf8_lossy(bytes@),
        valid_utf8(bytes@) ==> r@ == decode_utf8(bytes@),
{
    String::from_utf8_lossy(bytes).into_owned()
}

} // verus!
