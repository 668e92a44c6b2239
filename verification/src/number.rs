//! Decimal numbers written in the text syntax of std's `f64` parse, read
//! exactly and scaled by a power of ten.
use vstd::prelude::*;
use crate::text::{
    all_digits, all_digits_in, digit_of, digits_value, digits_value_upto, is_digit, push_all,
    slice_chars,
};

verus! {

/// Ten to the `n`.
pub open spec fn pow10(n: nat) -> nat
    decreases n,
{
    if n == 0 {
        1
    } else {
        10 * pow10((n - 1) as nat)
    }
}

/// The number of ASCII digits at the start of `s`.
pub open spec fn digit_run(s: Seq<char>) -> nat
    decreases s.len(),
{
    if s.len() > 0 && is_digit(s[0]) {
        1 + digit_run(s.drop_first())
    } else {
        0
    }
}

/// ASCII case folding of one character.
pub open spec fn ascii_lower(c: char) -> char {
    if 'A' <= c && c <= 'Z' {
        (((c as u32) + 32) as u8) as char
    } else {
        c
    }
}

/// Whether `s` and `t` are equal up to ASCII case.
pub open spec fn eq_ignore_ascii_case(s: Seq<char>, t: Seq<char>) -> bool {
    s.len() == t.len() && forall|i: int| 0 <= i < s.len() ==> ascii_lower(s[i]) == ascii_lower(
        t[i],
    )
}

/// A number in the syntax of std's `f64` parse.
pub enum FloatText {
    /// The digits `digits`, of which the last `frac_len` follow the decimal
    /// point, times ten to the `exp`.
    Finite { neg: bool, digits: Seq<char>, frac_len: nat, exp: int },
    /// `inf` or `infinity`.
    Infinite { neg: bool },
    /// `nan`.
    NotANumber,
}

/// The exponent part after `e`/`E`: an optional sign and one or more digits.
pub open spec fn exponent_text(r: Seq<char>) -> Option<int> {
    let neg = r.len() > 0 && r[0] == '-';
    let ds = if r.len() > 0 && (r[0] == '+' || r[0] == '-') {
        r.drop_first()
    } else {
        r
    };
    if ds.len() > 0 && all_digits(ds) {
        Some(
            if neg {
                -(digits_value(ds) as int)
            } else {
                digits_value(ds) as int
            },
        )
    } else {
        None
    }
}

/// The finite part of std's `f64` text syntax: digits with an optional decimal
/// point (at least one digit in all), then an optional exponent. Gives the
/// digits, how many of them follow the point, and the exponent.
pub open spec fn finite_text(body: Seq<char>) -> Option<(Seq<char>, nat, int)> {
    let il = digit_run(body);
    let r1 = body.skip(il as int);
    let has_point = r1.len() > 0 && r1[0] == '.';
    let fl: nat = if has_point {
        digit_run(r1.drop_first())
    } else {
        0
    };
    let r2 = if has_point {
        r1.skip((1 + fl) as int)
    } else {
        r1
    };
    let digits = if has_point {
        body.take(il as int) + r1.subrange(1, (1 + fl) as int)
    } else {
        body.take(il as int)
    };
    if il + fl == 0 {
        None
    } else if r2.len() == 0 {
        Some((digits, fl, 0))
    } else if r2[0] == 'e' || r2[0] == 'E' {
        match exponent_text(r2.drop_first()) {
            Some(e) => Some((digits, fl, e)),
            None => None,
        }
    } else {
        None
    }
}

/// The number that `s` spells in the syntax that std's `f64` parse accepts:
/// an optional sign, then either `inf`, `infinity` or `nan` in any ASCII case,
/// or a finite number (see `finite_text`).
pub open spec fn float_text(s: Seq<char>) -> Option<FloatText> {
    let neg = s.len() > 0 && s[0] == '-';
    let body = if s.len() > 0 && (s[0] == '+' || s[0] == '-') {
        s.drop_first()
    } else {
        s
    };
    if body.len() == 0 {
        None
    } else if eq_ignore_ascii_case(body, seq!['i', 'n', 'f']) || eq_ignore_ascii_case(
        body,
        seq!['i', 'n', 'f', 'i', 'n', 'i', 't', 'y'],
    ) {
        Some(FloatText::Infinite { neg })
    } else if eq_ignore_ascii_case(body, seq!['n', 'a', 'n']) {
        Some(FloatText::NotANumber)
    } else {
        match finite_text(body) {
            Some(t) => Some(FloatText::Finite { neg, digits: t.0, frac_len: t.1, exp: t.2 }),
            None => None,
        }
    }
}

/// The integer part of the number times ten to the `scale`, toward zero and
/// never below zero; infinity maps to `u64::MAX`, NaN to zero.
pub open spec fn scaled_floor(ft: FloatText, scale: nat) -> nat {
    match ft {
        FloatText::Finite { neg, digits, frac_len, exp } => if neg {
            0
        } else {
            let q = exp + scale - frac_len;
            if q >= 0 {
                digits_value(digits) * pow10(q as nat)
            } else {
                digits_value(digits) / pow10((-q) as nat)
            }
        },
        FloatText::Infinite { neg } => if neg {
            0
        } else {
            u64::MAX as nat
        },
        FloatText::NotANumber => 0,
    }
}

/// `n`, or `u64::MAX` where `n` is larger.
pub open spec fn saturate(n: nat) -> u64 {
    if n > u64::MAX {
        u64::MAX
    } else {
        n as u64
    }
}

/// The number `s` spells, times ten to the `scale`, as a saturating `u64`.
pub open spec fn scaled_u64(s: Seq<char>, scale: nat) -> Option<u64> {
    match float_text(s) {
        Some(ft) => Some(saturate(scaled_floor(ft, scale))),
        None => None,
    }
}

// ------------------------------------------------------------------
// Arithmetic facts
// ------------------------------------------------------------------

proof fn lemma_pow10_pos(n: nat)
    ensures
        pow10(n) >= 1,
    decreases n,
{
    if n > 0 {
        lemma_pow10_pos((n - 1) as nat);
    }
}

proof fn lemma_pow10_add(a: nat, b: nat)
    ensures
        pow10(a + b) == pow10(a) * pow10(b),
    decreases a,
{
    if a > 0 {
        let a1 = (a - 1) as nat;
        lemma_pow10_add(a1, b);
        assert(pow10(a + b) == 10 * pow10(a1 + b));
        assert(pow10(a) == 10 * pow10(a1));
        let x = pow10(a1);
        let y = pow10(b);
        let z = pow10(a1 + b);
        let w = pow10(a + b);
        let u = pow10(a);
        assert(w == u * y) by (nonlinear_arith)
            requires
                w == 10 * z,
                z == x * y,
                u == 10 * x,
        ;
    } else {
        assert(pow10(0) == 1);
        assert(a + b == b);
    }
}

proof fn lemma_pow10_mono(a: nat, b: nat)
    requires
        a <= b,
    ensures
        pow10(a) <= pow10(b),
    decreases b,
{
    if a < b {
        lemma_pow10_mono(a, (b - 1) as nat);
        lemma_pow10_pos((b - 1) as nat);
    }
}

proof fn lemma_pow10_20()
    ensures
        pow10(20) > u64::MAX,
{
    reveal_with_fuel(pow10, 21);
}

proof fn lemma_pow10_gt(n: nat)
    ensures
        pow10(n) > n,
    decreases n,
{
    if n > 0 {
        lemma_pow10_gt((n - 1) as nat);
    }
}

proof fn lemma_digits_value_bound(s: Seq<char>)
    requires
        all_digits(s),
    ensures
        digits_value(s) < pow10(s.len()),
    decreases s.len(),
{
    if s.len() > 0 {
        let d = s.drop_last();
        assert(all_digits(d)) by {
            assert forall|i: int| 0 <= i < d.len() implies is_digit(#[trigger] d[i]) by {
                assert(d[i] == s[i]);
            }
        }
        lemma_digits_value_bound(d);
        assert(is_digit(s[s.len() - 1]));
        let x = digits_value(d);
        let p = pow10(d.len());
        let y = digit_of(s.last());
        assert(x * 10 + y < 10 * p) by (nonlinear_arith)
            requires
                x < p,
                y < 10,
        ;
    }
}

proof fn lemma_digits_value_split(s: Seq<char>, k: int)
    requires
        0 <= k <= s.len(),
    ensures
        digits_value(s) == digits_value(s.take(k)) * pow10((s.len() - k) as nat) + digits_value(
            s.skip(k),
        ),
    decreases s.len() - k,
{
    if k == s.len() {
        assert(s.take(k) =~= s);
        assert(s.skip(k) =~= Seq::<char>::empty());
        assert(pow10(0) == 1);
        assert(digits_value(Seq::<char>::empty()) == 0);
        let v = digits_value(s);
        assert(v == v * 1 + 0);
    } else {
        let d = s.drop_last();
        lemma_digits_value_split(d, k);
        assert(d.take(k) =~= s.take(k));
        assert(s.skip(k).drop_last() =~= d.skip(k));
        assert(s.skip(k).last() == s.last());
        let a = digits_value(s.take(k));
        let p = pow10((d.len() - k) as nat);
        let b = digits_value(d.skip(k));
        let y = digit_of(s.last());
        assert(pow10((s.len() - k) as nat) == 10 * p);
        let vs = digits_value(s);
        let vd = digits_value(d);
        let vk = digits_value(s.skip(k));
        let pk = pow10((s.len() - k) as nat);
        assert(vs == vd * 10 + y);
        assert(vk == b * 10 + y);
        assert(vd == a * p + b);
        assert(vs == a * pk + vk) by (nonlinear_arith)
            requires
                vs == vd * 10 + y,
                vk == b * 10 + y,
                vd == a * p + b,
                pk == 10 * p,
        ;
    }
}

proof fn lemma_div_exact(a: nat, p: nat, b: nat)
    requires
        p > 0,
        b < p,
    ensures
        (a * p + b) / p == a,
{
    assert((a * p + b) / p == a) by (nonlinear_arith)
        requires
            p > 0,
            b < p,
    ;
}

// ------------------------------------------------------------------
// Reading the syntax
// ------------------------------------------------------------------

proof fn lemma_digit_run_at(s: Seq<char>, i: int)
    requires
        0 <= i <= s.len(),
        forall|j: int| 0 <= j < i ==> is_digit(s[j]),
        i < s.len() ==> !is_digit(s[i]),
    ensures
        digit_run(s) == i,
    decreases i,
{
    if i > 0 {
        lemma_digit_run_at(s.drop_first(), i - 1);
    }
}

/// The end of the run of ASCII digits of `v` that starts at `from`.
fn digit_run_end(v: &Vec<char>, from: usize) -> (e: usize)
    requires
        from <= v.len(),
    ensures
        from <= e <= v.len(),
        e - from == digit_run(v@.skip(from as int)),
        all_digits(v@.subrange(from as int, e as int)),
{
    let mut i = from;
    while i < v.len() && '0' <= v[i] && v[i] <= '9'
        invariant
            from <= i <= v.len(),
            forall|j: int| from <= j < i ==> is_digit(v@[j]),
        decreases v.len() - i,
    {
        i = i + 1;
    }
    proof {
        lemma_digit_run_at(v@.skip(from as int), (i - from) as int);
        assert forall|j: int| 0 <= j < i - from implies is_digit(
            #[trigger] v@.subrange(from as int, i as int)[j],
        ) by {
            assert(v@.subrange(from as int, i as int)[j] == v@[from + j]);
        }
    }
    i
}

/// Whether `v[from..]` equals `lit` up to ASCII case.
fn eq_ignore_case_from(v: &Vec<char>, from: usize, lit: &Vec<char>) -> (r: bool)
    requires
        from <= v.len(),
    ensures
        r == eq_ignore_ascii_case(v@.skip(from as int), lit@),
{
    if v.len() - from != lit.len() {
        return false;
    }
    let mut i: usize = 0;
    while i < lit.len()
        invariant
            i <= lit.len(),
            from + lit.len() == v.len(),
            forall|j: int| 0 <= j < i ==> ascii_lower(v@[from + j]) == ascii_lower(lit@[j]),
        decreases lit.len() - i,
    {
        let a = v[from + i];
        let b = lit[i];
        let la = if 'A' <= a && a <= 'Z' {
            (((a as u32) + 32) as u8) as char
        } else {
            a
        };
        let lb = if 'A' <= b && b <= 'Z' {
            (((b as u32) + 32) as u8) as char
        } else {
            b
        };
        if la != lb {
            assert(v@.skip(from as int)[i as int] == a);
            return false;
        }
        i = i + 1;
    }
    assert forall|j: int| 0 <= j < lit.len() implies ascii_lower(v@.skip(from as int)[j])
        == ascii_lower(lit@[j]) by {
        assert(v@.skip(from as int)[j] == v@[from + j]);
    }
    true
}

/// The value of the digits `v[from..to]` if at most `cap`.
fn digits_value_u128(v: &Vec<char>, from: usize, to: usize) -> (r: Option<u128>)
    requires
        from <= to <= v.len(),
        all_digits(v@.subrange(from as int, to as int)),
    ensures
        r is Some <==> digits_value(v@.subrange(from as int, to as int)) <= 0x1_0000_0000_0000_0000_0000_0000_0000u128,
        r matches Some(n) ==> n == digits_value(v@.subrange(from as int, to as int)),
{
    let cap: u128 = 0x1_0000_0000_0000_0000_0000_0000_0000u128;
    let mut acc: u128 = 0;
    let mut i = from;
    while i < to
        invariant
            from <= i <= to <= v.len(),
            all_digits(v@.subrange(from as int, to as int)),
            acc == digits_value(v@.subrange(from as int, i as int)),
            acc <= cap,
            cap == 0x1_0000_0000_0000_0000_0000_0000_0000u128,
        decreases to - i,
    {
        let c = v[i];
        proof {
            let s = v@.subrange(from as int, i + 1);
            assert(s.drop_last() =~= v@.subrange(from as int, i as int));
            assert(s.last() == c);
            assert(v@.subrange(from as int, to as int)[i - from] == c);
        }
        let d = (c as u32 - 48) as u128;
        let next: u128 = acc * 10 + d;
        if next > cap {
            proof {
                let whole = v@.subrange(from as int, to as int);
                lemma_digits_value_split(whole, (i + 1 - from) as int);
                assert(whole.take((i + 1 - from) as int) =~= v@.subrange(from as int, i + 1));
                lemma_pow10_pos((whole.len() - (i + 1 - from)) as nat);
                let a = digits_value(whole.take((i + 1 - from) as int));
                let p = pow10((whole.len() - (i + 1 - from)) as nat);
                assert(a * p >= a) by (nonlinear_arith)
                    requires
                        p >= 1,
                ;
            }
            return None;
        }
        acc = next;
        i = i + 1;
    }
    Some(acc)
}

/// Multiplies `a` (or the saturation marker) by ten `q` times, saturating.
fn times_pow10_sat(a: u64, q: u128) -> (r: u64)
    ensures
        r == saturate((a * pow10(q as nat)) as nat),
{
    if a == 0 {
        assert(0 * pow10(q as nat) == 0);
        return 0;
    }
    let mut acc: u64 = a;
    let mut k: u128 = 0;
    assert(pow10(0) == 1);
    while k < q
        invariant
            k <= q,
            acc >= 1,
            acc as nat == a * pow10(k as nat),
        decreases q - k,
    {
        if acc > 0xffff_ffff_ffff_ffffu64 / 10 {
            proof {
                lemma_pow10_add((k + 1) as nat, (q - k - 1) as nat);
                lemma_pow10_pos((q - k - 1) as nat);
                let p = pow10((q - k - 1) as nat);
                assert(pow10((k + 1) as nat) == 10 * pow10(k as nat));
                assert(a * pow10(q as nat) == (a * pow10(k as nat)) * 10 * p) by (nonlinear_arith)
                    requires
                        pow10(q as nat) == pow10((k + 1) as nat) * p,
                        pow10((k + 1) as nat) == 10 * pow10(k as nat),
                ;
                assert((acc as nat) * 10 * p > u64::MAX) by (nonlinear_arith)
                    requires
                        acc > u64::MAX / 10,
                        p >= 1,
                ;
            }
            return u64::MAX;
        }
        proof {
            assert(pow10((k + 1) as nat) == 10 * pow10(k as nat));
            assert(a * (10 * pow10(k as nat)) == (a * pow10(k as nat)) * 10) by (nonlinear_arith);
        }
        acc = acc * 10;
        k = k + 1;
    }
    acc
}

/// The magnitude above which an exponent is not held exactly.
pub open spec fn exp_cap() -> int {
    0x1_0000_0000_0000_0000_0000_0000_0000
}

/// Whether the sign `neg` and magnitude `abs` (`None`: above the cap) describe `e`.
pub open spec fn exp_matches(neg: bool, abs: Option<u128>, e: int) -> bool {
    &&& (abs matches Some(x) ==> x <= exp_cap() && e == (if neg {
        -(x as int)
    } else {
        x as int
    }))
    &&& (abs is None ==> (if neg {
        e < -exp_cap()
    } else {
        e > exp_cap()
    }))
}

/// A finite number as read from text: digits, how many are fractional, and
/// the exponent's sign and magnitude.
pub struct FiniteRead {
    pub digits: Vec<char>,
    pub frac_len: usize,
    pub exp_neg: bool,
    pub exp_abs: Option<u128>,
}

/// Reads the exponent digits `v[e0..]` after `e`/`E`.
fn read_exponent(v: &Vec<char>, e0: usize) -> (r: Option<(bool, Option<u128>)>)
    requires
        e0 <= v.len(),
    ensures
        r is None <==> exponent_text(v@.skip(e0 as int)) is None,
        r matches Some(x) ==> exp_matches(x.0, x.1, exponent_text(v@.skip(e0 as int))->0),
{
    let ghost r3 = v@.skip(e0 as int);
    let neg = e0 < v.len() && v[e0] == '-';
    let d0: usize = if e0 < v.len() && (v[e0] == '+' || v[e0] == '-') {
        e0 + 1
    } else {
        e0
    };
    proof {
        if d0 == e0 + 1 {
            assert(r3.drop_first() =~= v@.subrange(d0 as int, v.len() as int));
        } else {
            assert(r3 =~= v@.subrange(d0 as int, v.len() as int));
        }
    }
    if d0 == v.len() || !all_digits_in(v, d0, v.len()) {
        return None;
    }
    let abs = digits_value_u128(v, d0, v.len());
    Some((neg, abs))
}

/// Reads `v[b0..]` as the finite part of std's `f64` text syntax.
#[verifier::rlimit(50)]
fn read_finite(v: &Vec<char>, b0: usize) -> (r: Option<FiniteRead>)
    requires
        b0 <= v.len(),
    ensures
        r is None <==> finite_text(v@.skip(b0 as int)) is None,
        r matches Some(fr) ==> {
            let t = finite_text(v@.skip(b0 as int))->0;
            &&& fr.digits@ == t.0
            &&& all_digits(t.0)
            &&& fr.frac_len == t.1
            &&& t.1 <= t.0.len()
            &&& exp_matches(fr.exp_neg, fr.exp_abs, t.2)
        },
{
    let ghost s = v@;
    let ghost body = s.skip(b0 as int);
    let i1 = digit_run_end(v, b0);
    let has_point = i1 < v.len() && v[i1] == '.';
    let f0: usize = if has_point {
        i1 + 1
    } else {
        i1
    };
    let f1 = if has_point {
        digit_run_end(v, f0)
    } else {
        f0
    };
    let ghost il = (i1 - b0) as nat;
    let ghost fl = (f1 - f0) as nat;
    let ghost r1 = body.skip(il as int);
    proof {
        assert(r1 =~= s.skip(i1 as int));
        if has_point {
            assert(r1.drop_first() =~= s.skip(f0 as int));
            assert(r1.skip((1 + fl) as int) =~= s.skip(f1 as int));
            assert(r1.subrange(1, (1 + fl) as int) =~= s.subrange(f0 as int, f1 as int));
        }
        assert(body.take(il as int) =~= s.subrange(b0 as int, i1 as int));
    }
    if i1 == b0 && f1 == f0 {
        return None;
    }
    let mut digits = slice_chars(v, b0, i1);
    let frac = slice_chars(v, f0, f1);
    push_all(&mut digits, &frac);
    proof {
        assert(digits@ =~= s.subrange(b0 as int, i1 as int) + s.subrange(f0 as int, f1 as int));
        assert(all_digits(digits@)) by {
            assert forall|j: int| 0 <= j < digits@.len() implies is_digit(#[trigger] digits@[j]) by {
                if j < i1 - b0 {
                    assert(digits@[j] == s.subrange(b0 as int, i1 as int)[j]);
                } else {
                    assert(digits@[j] == s.subrange(f0 as int, f1 as int)[j - (i1 - b0)]);
                }
            }
        }
        if !has_point {
            assert(s.subrange(f0 as int, f1 as int) =~= Seq::<char>::empty());
        }
    }
    if f1 == v.len() {
        proof {
            assert(s.skip(f1 as int).len() == 0);
        }
        return Some(FiniteRead { digits, frac_len: f1 - f0, exp_neg: false, exp_abs: Some(0) });
    }
    if v[f1] != 'e' && v[f1] != 'E' {
        return None;
    }
    proof {
        assert(s.skip(f1 as int).drop_first() =~= s.skip(f1 + 1));
    }
    match read_exponent(v, f1 + 1) {
        None => None,
        Some(x) => Some(FiniteRead { digits, frac_len: f1 - f0, exp_neg: x.0, exp_abs: x.1 }),
    }
}

/// `saturate(floor(value(digits) * 10^(exp + scale - frac_len)))` for a
/// non-negative finite number.
fn scale_finite(fr: &FiniteRead, scale: u8, Ghost(e): Ghost<int>) -> (r: u64)
    requires
        scale <= 9,
        all_digits(fr.digits@),
        fr.frac_len <= fr.digits@.len(),
        exp_matches(fr.exp_neg, fr.exp_abs, e),
    ensures
        r == saturate(
            scaled_floor(
                FloatText::Finite {
                    neg: false,
                    digits: fr.digits@,
                    frac_len: fr.frac_len as nat,
                    exp: e,
                },
                scale as nat,
            ),
        ),
{
    let n = fr.digits.len();
    let ghost dv = digits_value(fr.digits@);
    let ghost q = e + scale - fr.frac_len;
    proof {
        lemma_digits_value_bound(fr.digits@);
    }
    match fr.exp_abs {
        None => {
            if fr.exp_neg {
                proof {
                    lemma_pow10_gt(n as nat);
                    lemma_pow10_mono(n as nat, (-q) as nat);
                    assert(dv / pow10((-q) as nat) == 0) by (nonlinear_arith)
                        requires
                            dv < pow10(n as nat),
                            pow10(n as nat) <= pow10((-q) as nat),
                    ;
                }
                0
            } else if all_zero(&fr.digits) {
                proof {
                    lemma_all_zero_value(fr.digits@);
                    assert(0 * pow10(q as nat) == 0);
                }
                0
            } else {
                proof {
                    lemma_not_all_zero_value(fr.digits@);
                    lemma_pow10_mono(20, q as nat);
                    lemma_pow10_20();
                    assert(dv * pow10(q as nat) >= pow10(q as nat)) by (nonlinear_arith)
                        requires
                            dv >= 1,
                    ;
                }
                u64::MAX
            }
        },
        Some(ev) => {
            let plus: u128 = if fr.exp_neg {
                scale as u128
            } else {
                ev + scale as u128
            };
            let minus: u128 = if fr.exp_neg {
                ev + fr.frac_len as u128
            } else {
                fr.frac_len as u128
            };
            if plus >= minus {
                scale_up(&fr.digits, plus - minus)
            } else {
                scale_down(&fr.digits, minus - plus)
            }
        },
    }
}

/// `saturate(value(digits) * 10^q)`.
fn scale_up(digits: &Vec<char>, q: u128) -> (r: u64)
    requires
        all_digits(digits@),
    ensures
        r == saturate((digits_value(digits@) * pow10(q as nat)) as nat),
{
    let n = digits.len();
    proof {
        assert(digits@.subrange(0, n as int) =~= digits@);
    }
    match digits_value_upto(digits, 0, n, u64::MAX) {
        None => {
            proof {
                lemma_pow10_pos(q as nat);
                let dv = digits_value(digits@);
                assert(dv * pow10(q as nat) >= dv) by (nonlinear_arith)
                    requires
                        pow10(q as nat) >= 1,
                ;
            }
            u64::MAX
        },
        Some(h) => times_pow10_sat(h, q),
    }
}

/// `saturate(value(digits) / 10^q)`.
fn scale_down(digits: &Vec<char>, q: u128) -> (r: u64)
    requires
        all_digits(digits@),
    ensures
        r == saturate(digits_value(digits@) / pow10(q as nat)),
{
    let n = digits.len();
    let ghost dv = digits_value(digits@);
    proof {
        lemma_digits_value_bound(digits@);
    }
    if q >= n as u128 {
        proof {
            lemma_pow10_mono(n as nat, q as nat);
            assert(dv / pow10(q as nat) == 0) by (nonlinear_arith)
                requires
                    dv < pow10(n as nat),
                    pow10(n as nat) <= pow10(q as nat),
            ;
        }
        return 0;
    }
    let keep = n - q as usize;
    proof {
        lemma_digits_value_split(digits@, keep as int);
        assert(all_digits(digits@.skip(keep as int))) by {
            assert forall|j: int| 0 <= j < digits@.skip(keep as int).len() implies is_digit(
                #[trigger] digits@.skip(keep as int)[j],
            ) by {
                assert(digits@.skip(keep as int)[j] == digits@[keep + j]);
            }
        }
        lemma_digits_value_bound(digits@.skip(keep as int));
        lemma_pow10_pos(q as nat);
        lemma_div_exact(
            digits_value(digits@.take(keep as int)),
            pow10(q as nat),
            digits_value(digits@.skip(keep as int)),
        );
        assert(digits@.subrange(0, keep as int) =~= digits@.take(keep as int));
        assert(all_digits(digits@.subrange(0, keep as int))) by {
            assert forall|j: int| 0 <= j < keep implies is_digit(
                #[trigger] digits@.subrange(0, keep as int)[j],
            ) by {
                assert(digits@.subrange(0, keep as int)[j] == digits@[j]);
            }
        }
    }
    match digits_value_upto(digits, 0, keep, u64::MAX) {
        None => u64::MAX,
        Some(h) => h,
    }
}

/// The number `v` spells in std's `f64` text syntax, times ten to the `scale`,
/// toward zero, saturating at `u64::MAX`.
pub fn scaled_value(v: &Vec<char>, scale: u8) -> (r: Option<u64>)
    requires
        scale <= 9,
    ensures
        r == scaled_u64(v@, scale as nat),
{
    let ghost s = v@;
    let neg = v.len() > 0 && v[0] == '-';
    let b0: usize = if v.len() > 0 && (v[0] == '+' || v[0] == '-') {
        1
    } else {
        0
    };
    proof {
        if b0 == 1 {
            assert(s.drop_first() =~= s.skip(1));
        } else {
            assert(s =~= s.skip(0));
        }
    }
    if b0 == v.len() {
        return None;
    }
    if eq_ignore_case_from(v, b0, &vec!['i', 'n', 'f']) || eq_ignore_case_from(
        v,
        b0,
        &vec!['i', 'n', 'f', 'i', 'n', 'i', 't', 'y'],
    ) {
        return Some(
            if neg {
                0
            } else {
                u64::MAX
            },
        );
    }
    if eq_ignore_case_from(v, b0, &vec!['n', 'a', 'n']) {
        return Some(0);
    }
    match read_finite(v, b0) {
        None => None,
        Some(fr) => {
            if neg {
                Some(0)
            } else {
                let ghost e = (finite_text(s.skip(b0 as int))->0).2;
                Some(scale_finite(&fr, scale, Ghost(e)))
            }
        },
    }
}

/// Whether every digit of `v` is `0`.
fn all_zero(v: &Vec<char>) -> (r: bool)
    ensures
        r == (forall|i: int| 0 <= i < v.len() ==> v@[i] == '0'),
{
    let mut i: usize = 0;
    while i < v.len()
        invariant
            i <= v.len(),
            forall|j: int| 0 <= j < i ==> v@[j] == '0',
        decreases v.len() - i,
    {
        if v[i] != '0' {
            return false;
        }
        i = i + 1;
    }
    true
}

proof fn lemma_all_zero_value(s: Seq<char>)
    requires
        forall|i: int| 0 <= i < s.len() ==> s[i] == '0',
    ensures
        digits_value(s) == 0,
    decreases s.len(),
{
    if s.len() > 0 {
        lemma_all_zero_value(s.drop_last());
    }
}

proof fn lemma_not_all_zero_value(s: Seq<char>)
    requires
        all_digits(s),
        exists|i: int| 0 <= i < s.len() && s[i] != '0',
    ensures
        digits_value(s) >= 1,
    decreases s.len(),
{
    let d = s.drop_last();
    if s.last() != '0' {
        assert(is_digit(s[s.len() - 1]));
    } else {
        let i = choose|i: int| 0 <= i < s.len() && s[i] != '0';
        assert(d[i] == s[i]);
        assert(all_digits(d)) by {
            assert forall|j: int| 0 <= j < d.len() implies is_digit(#[trigger] d[j]) by {
                assert(d[j] == s[j]);
            }
        }
        lemma_not_all_zero_value(d);
    }
}

} // verus!
