//! Exact decimal reasoning about numbers written in source text: where a
//! numeric literal lies with respect to one tenth once it is read as a
//! double, decided without floating-point arithmetic.
use vstd::prelude::*;
use crate::text::{chars_of, decimal};

verus! {

/// Where a numeric text lies once read as a double (the way Rust's
/// `str::parse` reads it): not a number, above one tenth, or below minus
/// one tenth.
#[derive(Debug, Clone, Copy, PartialEq, Eq, Structural)]
pub struct LiteralClass {
    pub nan: bool,
    pub above: bool,
    pub below: bool,
}

pub open spec fn is_digit(c: char) -> bool {
    '0' <= c && c <= '9'
}

pub open spec fn all_digits(s: Seq<char>) -> bool {
    forall|i: int| 0 <= i < s.len() ==> is_digit(#[trigger] s[i])
}

/// The value of a decimal digit.
pub open spec fn digit_value(c: char) -> nat {
    ((c as u32) - ('0' as u32)) as nat
}

/// The value of a string of decimal digits.
pub open spec fn digits_value(s: Seq<char>) -> nat
    decreases s.len(),
{
    if s.len() == 0 {
        0
    } else {
        digits_value(s.drop_last()) * 10 + digit_value(s.last())
    }
}

/// `c` is the lower-case ASCII letter `l` or its upper-case form.
pub open spec fn letter_ci(c: char, l: char) -> bool {
    c == l || (c as u32) + 32 == (l as u32)
}

/// `s` spells the lower-case ASCII word `w`, ignoring ASCII case.
pub open spec fn word_ci(s: Seq<char>, w: Seq<char>) -> bool {
    s.len() == w.len() && forall|i: int| 0 <= i < s.len() ==> letter_ci(#[trigger] s[i], w[i])
}

/// The number of leading `'0'` digits of `s`.
pub open spec fn leading_zeros(s: Seq<char>) -> nat
    decreases s.len(),
{
    if s.len() > 0 && s[0] == '0' {
        1 + leading_zeros(s.drop_first())
    } else {
        0
    }
}

/// The decimal fraction `0.a` exceeds the decimal fraction `0.b`.
pub open spec fn fraction_gt(a: Seq<char>, b: Seq<char>) -> bool
    decreases a.len(),
{
    if a.len() == 0 {
        false
    } else if b.len() == 0 {
        exists|i: int| 0 <= i < a.len() && #[trigger] a[i] != '0'
    } else if a[0] > b[0] {
        true
    } else if a[0] < b[0] {
        false
    } else {
        fraction_gt(a.drop_first(), b.drop_first())
    }
}

/// The digits of the midpoint between one tenth (as a double) and the next
/// double above it, `0.100000000000000012490009027033011079765856266021728515625`:
/// a decimal reads as a double above one tenth exactly when it exceeds this
/// midpoint (at the midpoint itself the tie goes to the even neighbour,
/// one tenth).
pub open spec fn tenth_midpoint_digits() -> Seq<char> {
    "100000000000000012490009027033011079765856266021728515625"@
}

/// The number `int_part.frac × 10^exp` (its digits given) exceeds the
/// midpoint above one tenth.
pub open spec fn magnitude_above_tenth(int_part: Seq<char>, frac: Seq<char>, exp: int) -> bool {
    let d = int_part + frac;
    let z = leading_zeros(d);
    let sig = d.subrange(z as int, d.len() as int);
    let p = int_part.len() - z + exp;
    sig.len() > 0 && (p > 0 || (p == 0 && fraction_gt(sig, tenth_midpoint_digits())))
}

/// The position of the first exponent mark (`e` or `E`) among the first `n`
/// characters of `b`.
pub open spec fn exponent_mark(b: Seq<char>, n: int) -> Option<int>
    decreases n,
{
    if n <= 0 {
        None
    } else {
        match exponent_mark(b, n - 1) {
            Some(k) => Some(k),
            None => if b[n - 1] == 'e' || b[n - 1] == 'E' {
                Some(n - 1)
            } else {
                None
            },
        }
    }
}

/// The position of the first `.` among the first `n` characters of `m`.
pub open spec fn dot_mark(m: Seq<char>, n: int) -> Option<int>
    decreases n,
{
    if n <= 0 {
        None
    } else {
        match dot_mark(m, n - 1) {
            Some(k) => Some(k),
            None => if m[n - 1] == '.' {
                Some(n - 1)
            } else {
                None
            },
        }
    }
}

/// The value of an exponent text (an optional sign, then digits), if it is one.
pub open spec fn exponent_value(ex: Seq<char>) -> Option<int> {
    let signed = ex.len() > 0 && (ex[0] == '+' || ex[0] == '-');
    let ds = if signed {
        ex.drop_first()
    } else {
        ex
    };
    if ds.len() >= 1 && all_digits(ds) {
        if signed && ex[0] == '-' {
            Some(-(digits_value(ds) as int))
        } else {
            Some(digits_value(ds) as int)
        }
    } else {
        None
    }
}

/// How an unsigned numeric text `b` (a word `inf`, `infinity` or `nan` in
/// any case, or digits with at most one `.` and at least one digit, then an
/// optional exponent) compares with one tenth, if it is one: whether it is
/// not a number and whether its magnitude lies above one tenth.
pub open spec fn unsigned_class(b: Seq<char>) -> Option<(bool, bool)> {
    if word_ci(b, "inf"@) || word_ci(b, "infinity"@) {
        Some((false, true))
    } else if word_ci(b, "nan"@) {
        Some((true, false))
    } else {
        let (m, ex) = match exponent_mark(b, b.len() as int) {
            Some(k) => (b.subrange(0, k), Some(b.subrange(k + 1, b.len() as int))),
            None => (b, None),
        };
        let (int_part, frac) = match dot_mark(m, m.len() as int) {
            Some(k) => (m.subrange(0, k), m.subrange(k + 1, m.len() as int)),
            None => (m, Seq::<char>::empty()),
        };
        let exp = match ex {
            Some(e) => exponent_value(e),
            None => Some(0),
        };
        if all_digits(int_part) && all_digits(frac) && int_part.len() + frac.len() >= 1 && exp is Some {
            Some((false, magnitude_above_tenth(int_part, frac, exp->0)))
        } else {
            None
        }
    }
}

/// How the text `s` compares with one tenth when read as a double (an
/// optional sign before an unsigned numeric text), if it reads as one.
pub open spec fn literal_class(s: Seq<char>) -> Option<LiteralClass> {
    let signed = s.len() > 0 && (s[0] == '+' || s[0] == '-');
    let neg = signed && s[0] == '-';
    let b = if signed {
        s.drop_first()
    } else {
        s
    };
    match unsigned_class(b) {
        Some((nan, big)) => Some(LiteralClass { nan, above: !nan && big && !neg, below: !nan && big && neg }),
        None => None,
    }
}

fn is_digit_exec(c: char) -> (r: bool)
    ensures
        r == is_digit(c),
{
    '0' <= c && c <= '9'
}

fn all_digits_exec(cs: &Vec<char>, a: usize, b: usize) -> (r: bool)
    requires
        a <= b <= cs@.len(),
    ensures
        r == all_digits(cs@.subrange(a as int, b as int)),
{
    let mut i = a;
    while i < b
        invariant
            a <= i <= b <= cs@.len(),
            forall|k: int| a <= k < i ==> is_digit(#[trigger] cs@[k]),
        decreases b - i,
    {
        if !is_digit_exec(cs[i]) {
            assert(cs@.subrange(a as int, b as int)[i - a] == cs@[i as int]);
            return false;
        }
        i = i + 1;
    }
    assert forall|k: int| 0 <= k < b - a implies is_digit(#[trigger] cs@.subrange(a as int, b as int)[k]) by {
        assert(cs@.subrange(a as int, b as int)[k] == cs@[a + k]);
    }
    true
}

fn word_ci_exec(cs: &Vec<char>, a: usize, w: &str) -> (r: bool)
    requires
        a <= cs@.len(),
    ensures
        r == word_ci(cs@.subrange(a as int, cs@.len() as int), w@),
{
    let ws = chars_of(w);
    let total = cs.len();
    let n = total - a;
    if n != ws.len() {
        return false;
    }
    let mut i: usize = 0;
    while i < n
        invariant
            a <= cs@.len(),
            total == cs@.len(),
            a + n == total,
            n == cs@.len() - a,
            n == ws@.len(),
            ws@ == w@,
            i <= n,
            forall|k: int| 0 <= k < i ==> letter_ci(#[trigger] cs@[a + k], ws@[k]),
        decreases n - i,
    {
        let c = cs[a + i];
        let l = ws[i];
        if !(c == l || ((l as u32) >= 32 && (c as u32) == (l as u32) - 32)) {
            assert(cs@.subrange(a as int, cs@.len() as int)[i as int] == c);
            return false;
        }
        i = i + 1;
    }
    assert forall|k: int| 0 <= k < n implies letter_ci(#[trigger] cs@.subrange(a as int, cs@.len() as int)[k], w@[k]) by {
        assert(cs@.subrange(a as int, cs@.len() as int)[k] == cs@[a + k]);
    }
    true
}

proof fn lemma_exponent_mark_stable(b: Seq<char>, x: int, y: int)
    requires
        0 <= x <= y,
        exponent_mark(b, x) is Some,
    ensures
        exponent_mark(b, y) == exponent_mark(b, x),
    decreases y - x,
{
    if x < y {
        lemma_exponent_mark_stable(b, x, y - 1);
    }
}

proof fn lemma_dot_mark_stable(m: Seq<char>, x: int, y: int)
    requires
        0 <= x <= y,
        dot_mark(m, x) is Some,
    ensures
        dot_mark(m, y) == dot_mark(m, x),
    decreases y - x,
{
    if x < y {
        lemma_dot_mark_stable(m, x, y - 1);
    }
}

proof fn lemma_exponent_mark_none(b: Seq<char>, n: int)
    requires
        0 <= n <= b.len(),
        forall|k: int| 0 <= k < n ==> b[k] != 'e' && b[k] != 'E',
    ensures
        exponent_mark(b, n) is None,
    decreases n,
{
    if n > 0 {
        lemma_exponent_mark_none(b, n - 1);
    }
}

proof fn lemma_dot_mark_none(m: Seq<char>, n: int)
    requires
        0 <= n <= m.len(),
        forall|k: int| 0 <= k < n ==> m[k] != '.',
    ensures
        dot_mark(m, n) is None,
    decreases n,
{
    if n > 0 {
        lemma_dot_mark_none(m, n - 1);
    }
}

/// The first position in `cs[a..b]` holding `c1` or `c2`, as an index into
/// `cs`, or `b`.
fn first_of(cs: &Vec<char>, a: usize, b: usize, c1: char, c2: char) -> (r: usize)
    requires
        a <= b <= cs@.len(),
    ensures
        a <= r <= b,
        forall|k: int| a <= k < r ==> cs@[k] != c1 && cs@[k] != c2,
        r < b ==> (cs@[r as int] == c1 || cs@[r as int] == c2),
{
    let mut i = a;
    while i < b
        invariant
            a <= i <= b <= cs@.len(),
            forall|k: int| a <= k < i ==> cs@[k] != c1 && cs@[k] != c2,
        decreases b - i,
    {
        if cs[i] == c1 || cs[i] == c2 {
            return i;
        }
        i = i + 1;
    }
    b
}

/// The number of leading zeros of `cs[a..b]`.
fn leading_zeros_exec(cs: &Vec<char>, a: usize, b: usize) -> (r: usize)
    requires
        a <= b <= cs@.len(),
    ensures
        r == leading_zeros(cs@.subrange(a as int, b as int)),
        r <= b - a,
{
    let mut i = a;
    while i < b && cs[i] == '0'
        invariant
            a <= i <= b <= cs@.len(),
            leading_zeros(cs@.subrange(a as int, b as int)) == (i - a) + leading_zeros(cs@.subrange(i as int, b as int)),
        decreases b - i,
    {
        assert(cs@.subrange(i as int, b as int).drop_first() =~= cs@.subrange(i + 1, b as int));
        i = i + 1;
    }
    if i < b {
        assert(cs@.subrange(i as int, b as int)[0] == cs@[i as int]);
    }
    i - a
}

/// The exponent value `ds` (digits), capped at `cap + 1`.
fn capped_digits_value(cs: &Vec<char>, a: usize, b: usize, cap: u128) -> (r: u128)
    requires
        a <= b <= cs@.len(),
        all_digits(cs@.subrange(a as int, b as int)),
        cap <= 0x1_0000_0000_0000_0000,
    ensures
        r as int == (if digits_value(cs@.subrange(a as int, b as int)) <= cap {
            digits_value(cs@.subrange(a as int, b as int)) as int
        } else {
            cap + 1
        }),
{
    let mut v: u128 = 0;
    let mut i = a;
    while i < b
        invariant
            a <= i <= b <= cs@.len(),
            all_digits(cs@.subrange(a as int, b as int)),
            cap <= 0x1_0000_0000_0000_0000,
            v as int == (if digits_value(cs@.subrange(a as int, i as int)) <= cap {
                digits_value(cs@.subrange(a as int, i as int)) as int
            } else {
                cap + 1
            }),
        decreases b - i,
    {
        let ghost pre = cs@.subrange(a as int, i as int);
        let ghost post = cs@.subrange(a as int, i + 1);
        assert(post.drop_last() =~= pre);
        assert(post.last() == cs@[i as int]);
        assert(cs@.subrange(a as int, b as int)[i - a] == cs@[i as int]);
        assert(is_digit(cs@[i as int]));
        let d = (cs[i] as u32 - '0' as u32) as u128;
        assert(d == digit_value(cs@[i as int]));
        if v > cap {
            assert(digits_value(post) >= digits_value(pre));
        } else {
            let nv = v * 10 + d;
            if nv > cap {
                v = cap + 1;
            } else {
                v = nv;
            }
        }
        i = i + 1;
    }
    v
}

proof fn lemma_fraction_gt_skip(a: Seq<char>, b: Seq<char>, k: int)
    requires
        0 <= k <= a.len(),
        k <= b.len(),
        forall|i: int| 0 <= i < k ==> a[i] == b[i],
    ensures
        fraction_gt(a, b) == fraction_gt(a.subrange(k, a.len() as int), b.subrange(k, b.len() as int)),
    decreases k,
{
    if k > 0 {
        assert(a.drop_first().subrange(k - 1, a.drop_first().len() as int) =~= a.subrange(k, a.len() as int));
        assert(b.drop_first().subrange(k - 1, b.drop_first().len() as int) =~= b.subrange(k, b.len() as int));
        lemma_fraction_gt_skip(a.drop_first(), b.drop_first(), k - 1);
    } else {
        assert(a.subrange(0, a.len() as int) =~= a);
        assert(b.subrange(0, b.len() as int) =~= b);
    }
}

/// Whether the fraction `0.cs[a..b]` exceeds `0.w`.
fn fraction_gt_exec(cs: &Vec<char>, a: usize, b: usize, w: &Vec<char>) -> (r: bool)
    requires
        a <= b <= cs@.len(),
    ensures
        r == fraction_gt(cs@.subrange(a as int, b as int), w@),
{
    let ghost x = cs@.subrange(a as int, b as int);
    let mut k: usize = 0;
    while a + k < b && k < w.len() && cs[a + k] == w[k]
        invariant
            a <= b <= cs@.len(),
            x == cs@.subrange(a as int, b as int),
            a + k <= b,
            k <= w@.len(),
            forall|i: int| 0 <= i < k ==> x[i] == w@[i],
        decreases b - a - k,
    {
        k = k + 1;
    }
    proof {
        lemma_fraction_gt_skip(x, w@, k as int);
    }
    let ghost xs = x.subrange(k as int, x.len() as int);
    let ghost ws = w@.subrange(k as int, w@.len() as int);
    if a + k == b {
        assert(xs.len() == 0);
        return false;
    }
    assert(xs[0] == cs@[a + k]);
    if k == w.len() {
        let mut i = a + k;
        while i < b
            invariant
                a + k <= i <= b <= cs@.len(),
                k == w@.len(),
                x == cs@.subrange(a as int, b as int),
                xs == x.subrange(k as int, x.len() as int),
                ws == w@.subrange(k as int, w@.len() as int),
                xs.len() > 0,
                fraction_gt(x, w@) == fraction_gt(xs, ws),
                forall|q: int| a + k <= q < i ==> cs@[q] == '0',
            decreases b - i,
        {
            if cs[i] != '0' {
                assert(xs[i - a - k] == cs@[i as int]);
                assert(ws.len() == 0);
                assert(xs[i - a - k] != '0');
                return true;
            }
            i = i + 1;
        }
        assert forall|q: int| 0 <= q < xs.len() implies #[trigger] xs[q] == '0' by {
            assert(xs[q] == cs@[a + k + q]);
        }
        return false;
    }
    assert(ws[0] == w@[k as int]);
    cs[a + k] > w[k]
}

/// How the text `s` compares with one tenth when read as a double, if it
/// reads as one.
pub fn literal_class_exec(s: &str) -> (r: Option<LiteralClass>)
    ensures
        r == literal_class(s@),
{
    let cs = chars_of(s);
    let n = cs.len();
    assert(n < 0x1_0000_0000_0000_0000);
    let signed = n > 0 && (cs[0] == '+' || cs[0] == '-');
    let neg = signed && cs[0] == '-';
    let a: usize = if signed {
        1
    } else {
        0
    };
    let ghost b = if signed {
        s@.drop_first()
    } else {
        s@
    };
    assert(b =~= cs@.subrange(a as int, n as int));
    let u = unsigned_class_exec(&cs, a);
    match u {
        Some((nan, big)) => Some(LiteralClass { nan, above: !nan && big && !neg, below: !nan && big && neg }),
        None => None,
    }
}

/// An exponent value held capped at `cap + 1` in magnitude.
pub open spec fn capped(v: int, x: int, cap: int) -> bool {
    if -cap <= x <= cap {
        v == x
    } else if x > cap {
        v == cap + 1
    } else {
        v == -(cap + 1)
    }
}

/// The exponent text `cs[s0..]`, read and capped, if it is one.
fn exponent_exec(cs: &Vec<char>, s0: usize, cap: u128) -> (r: Option<i128>)
    requires
        s0 <= cs@.len(),
        cap <= 0x1_0000_0000_0000_0000,
    ensures
        r is Some <==> exponent_value(cs@.subrange(s0 as int, cs@.len() as int)) is Some,
        r matches Some(v) ==> capped(v as int, exponent_value(cs@.subrange(s0 as int, cs@.len() as int))->0, cap as int),
{
    let n = cs.len();
    let ghost ex = cs@.subrange(s0 as int, n as int);
    let signed = s0 < n && (cs[s0] == '+' || cs[s0] == '-');
    let dstart: usize = if signed {
        s0 + 1
    } else {
        s0
    };
    proof {
        if s0 < n {
            assert(ex[0] == cs@[s0 as int]);
        }
        if signed {
            assert(ex.drop_first() =~= cs@.subrange(dstart as int, n as int));
        } else {
            assert(ex =~= cs@.subrange(dstart as int, n as int));
        }
    }
    if !(dstart < n && all_digits_exec(cs, dstart, n)) {
        return None;
    }
    let v = capped_digits_value(cs, dstart, n, cap);
    if signed && cs[s0] == '-' {
        Some(-(v as i128))
    } else {
        Some(v as i128)
    }
}

/// Whether `int_part.frac × 10^exp` exceeds the midpoint above one tenth,
/// with `int_part = cs[a..d]`, `frac = cs[f0..e]` and the exponent held
/// capped.
fn magnitude_exec(cs: &Vec<char>, a: usize, d: usize, f0: usize, e: usize, exp: i128, Ghost(exp_spec): Ghost<int>) -> (r: bool)
    requires
        a <= d <= f0 <= e <= cs@.len(),
        cs@.len() < 0x1_0000_0000_0000_0000,
        capped(exp as int, exp_spec, cs@.len() as int + 1),
    ensures
        r == magnitude_above_tenth(cs@.subrange(a as int, d as int), cs@.subrange(f0 as int, e as int), exp_spec),
{
    let ghost int_part = cs@.subrange(a as int, d as int);
    let ghost frac = cs@.subrange(f0 as int, e as int);
    let ghost dg = int_part + frac;
    let mut digits: Vec<char> = Vec::new();
    let mut i = a;
    while i < d
        invariant
            a <= i <= d <= cs@.len(),
            digits@ == cs@.subrange(a as int, i as int),
        decreases d - i,
    {
        digits.push(cs[i]);
        assert(cs@.subrange(a as int, i + 1) =~= cs@.subrange(a as int, i as int).push(cs@[i as int]));
        i = i + 1;
    }
    let mut i = f0;
    while i < e
        invariant
            f0 <= i <= e <= cs@.len(),
            a <= d,
            int_part == cs@.subrange(a as int, d as int),
            digits@ == int_part + cs@.subrange(f0 as int, i as int),
        decreases e - i,
    {
        digits.push(cs[i]);
        assert(cs@.subrange(f0 as int, i + 1) =~= cs@.subrange(f0 as int, i as int).push(cs@[i as int]));
        i = i + 1;
    }
    assert(digits@ =~= dg);
    let dl = digits.len();
    let z = leading_zeros_exec(&digits, 0, dl);
    assert(digits@.subrange(0, dl as int) =~= dg);
    if z == dl {
        assert(dg.subrange(z as int, dg.len() as int).len() == 0);
        return false;
    }
    let ilen = (d - a) as i128;
    let p: i128 = ilen - (z as i128) + exp;
    proof {
        let pe = int_part.len() - z + exp_spec;
        assert(dl <= cs@.len());
        assert((p > 0) == (pe > 0));
        assert((p == 0) == (pe == 0));
    }
    if p > 0 {
        true
    } else if p < 0 {
        false
    } else {
        let mid = chars_of("100000000000000012490009027033011079765856266021728515625");
        fraction_gt_exec(&digits, z, dl, &mid)
    }
}

fn unsigned_class_exec(cs: &Vec<char>, a: usize) -> (r: Option<(bool, bool)>)
    requires
        a <= cs@.len(),
        cs@.len() < 0x1_0000_0000_0000_0000,
    ensures
        r == unsigned_class(cs@.subrange(a as int, cs@.len() as int)),
{
    let n = cs.len();
    let ghost b = cs@.subrange(a as int, n as int);
    proof {
        reveal_strlit("inf");
        reveal_strlit("infinity");
        reveal_strlit("nan");
    }
    if word_ci_exec(cs, a, "inf") || word_ci_exec(cs, a, "infinity") {
        return Some((false, true));
    }
    if word_ci_exec(cs, a, "nan") {
        return Some((true, false));
    }
    let e = first_of(cs, a, n, 'e', 'E');
    proof {
        if e < n {
            assert forall|k: int| 0 <= k < e - a implies b[k] != 'e' && b[k] != 'E' by {
                assert(b[k] == cs@[a + k]);
            }
            lemma_exponent_mark_none(b, e - a);
            assert(b[e - a] == cs@[e as int]);
            assert(exponent_mark(b, e - a + 1) == Some(e - a));
            lemma_exponent_mark_stable(b, e - a + 1, b.len() as int);
            assert(b.subrange(0, e - a) =~= cs@.subrange(a as int, e as int));
            assert(b.subrange(e - a + 1, b.len() as int) =~= cs@.subrange(e + 1, n as int));
        } else {
            assert forall|k: int| 0 <= k < b.len() implies b[k] != 'e' && b[k] != 'E' by {
                assert(b[k] == cs@[a + k]);
            }
            lemma_exponent_mark_none(b, b.len() as int);
        }
    }
    let ghost m = cs@.subrange(a as int, e as int);
    let d = first_of(cs, a, e, '.', '.');
    proof {
        if d < e {
            assert forall|k: int| 0 <= k < d - a implies m[k] != '.' by {
                assert(m[k] == cs@[a + k]);
            }
            lemma_dot_mark_none(m, d - a);
            assert(m[d - a] == cs@[d as int]);
            assert(dot_mark(m, d - a + 1) == Some(d - a));
            lemma_dot_mark_stable(m, d - a + 1, m.len() as int);
            assert(m.subrange(0, d - a) =~= cs@.subrange(a as int, d as int));
            assert(m.subrange(d - a + 1, m.len() as int) =~= cs@.subrange(d + 1, e as int));
        } else {
            assert forall|k: int| 0 <= k < m.len() implies m[k] != '.' by {
                assert(m[k] == cs@[a + k]);
            }
            lemma_dot_mark_none(m, m.len() as int);
            assert(cs@.subrange(e as int, e as int) =~= Seq::<char>::empty());
        }
    }
    let f0: usize = if d < e {
        d + 1
    } else {
        e
    };
    if !(all_digits_exec(cs, a, d) && all_digits_exec(cs, f0, e) && (d - a) + (e - f0) >= 1) {
        return None;
    }
    let cap: u128 = n as u128 + 1;
    let mut exp: i128 = 0;
    let ghost mut exp_spec: int = 0;
    if e < n {
        match exponent_exec(cs, e + 1, cap) {
            Some(v) => {
                exp = v;
                proof {
                    exp_spec = exponent_value(cs@.subrange(e + 1, n as int))->0;
                }
            },
            None => {
                return None;
            },
        }
    }
    let big = magnitude_exec(cs, a, d, f0, e, exp, Ghost(exp_spec));
    Some((false, big))
}

/// Two to the power `k`.
pub open spec fn pow2_of(k: nat) -> nat
    decreases k,
{
    if k == 0 {
        1
    } else {
        2 * pow2_of((k - 1) as nat)
    }
}

proof fn lemma_pow2_of_pos(k: nat)
    ensures
        pow2_of(k) >= 1,
    decreases k,
{
    if k > 0 {
        lemma_pow2_of_pos((k - 1) as nat);
    }
}

proof fn lemma_pow2_of_mono(a: nat, b: nat)
    requires
        a <= b,
    ensures
        1 <= pow2_of(a) <= pow2_of(b),
    decreases b - a,
{
    lemma_pow2_of_pos(a);
    if a < b {
        lemma_pow2_of_mono(a, (b - 1) as nat);
    }
}

/// `n / d` rounded to the nearest integer, ties to the even one.
pub open spec fn round_even(n: nat, d: nat) -> nat {
    let q = n / d;
    let r = n % d;
    if 2 * r > d || (2 * r == d && q % 2 == 1) {
        q + 1
    } else {
        q
    }
}

/// The number of binary digits of `n`.
pub open spec fn bit_length(n: nat) -> nat
    decreases n,
{
    if n == 0 {
        0
    } else {
        1 + bit_length(n / 2)
    }
}

/// The value of the double nearest to the integer `n` (rounding to 53
/// significant bits, ties to even).
pub open spec fn double_of_int(n: nat) -> nat {
    if bit_length(n) <= 53 {
        n
    } else {
        let k = (bit_length(n) - 53) as nat;
        round_even(n, pow2_of(k)) * pow2_of(k)
    }
}

/// The largest `e` with `d * 2^e <= n`, for `1 <= d <= n`.
pub open spec fn quotient_log2(n: nat, d: nat) -> nat
    decreases n - d,
{
    if d == 0 || n < 2 * d {
        0
    } else {
        1 + quotient_log2(n, 2 * d)
    }
}

/// The double nearest to `n / d` (for `1 <= d <= n`), as a fraction
/// `num / den`: 53 significant bits, ties to even.
pub open spec fn double_quotient(n: nat, d: nat) -> (nat, nat) {
    let e = quotient_log2(n, d);
    if e <= 52 {
        let s = (52 - e) as nat;
        (round_even(n * pow2_of(s), d), pow2_of(s))
    } else {
        let s = (e - 52) as nat;
        (round_even(n, d * pow2_of(s)) * pow2_of(s), 1)
    }
}

/// The quotient `m / a` of two counts computed in double precision (each
/// count converted to the nearest double, then divided with rounding to
/// the nearest double) is greater than three.
pub open spec fn ratio_over_three(m: nat, a: nat) -> bool {
    let n = double_of_int(m);
    let d = double_of_int(a);
    n > 3 * d && double_quotient(n, d).0 > 3 * double_quotient(n, d).1
}

/// Ten times that double quotient, rounded to an integer the way a format
/// with one decimal place rounds it (to nearest, ties to even).
pub open spec fn ratio_tenths(m: nat, a: nat) -> nat {
    let q = double_quotient(double_of_int(m), double_of_int(a));
    round_even(10 * q.0, q.1)
}

/// The double quotient `m / a` written with one decimal place.
pub open spec fn ratio_text(m: nat, a: nat) -> Seq<char> {
    let t = ratio_tenths(m, a);
    decimal(t / 10) + "."@ + decimal(t % 10)
}

fn round_even_exec(n: u128, d: u128) -> (r: u128)
    requires
        d > 0,
        n < 0xffff_ffff_ffff_ffff_ffff_ffff_ffff_ffff,
    ensures
        r == round_even(n as nat, d as nat),
        r <= n as int + 1,
{
    let q = n / d;
    let r = n % d;
    assert(q <= n) by (nonlinear_arith)
        requires
            d > 0,
            q == n / d,
    ;
    let up = (r > d - r) || (r == d - r && q % 2 == 1);
    if up {
        q + 1
    } else {
        q
    }
}

proof fn lemma_bit_length_bound(n: nat, k: nat)
    requires
        n < pow2_of(k),
    ensures
        bit_length(n) <= k,
    decreases k,
{
    if n > 0 {
        assert(k > 0);
        assert(n / 2 < pow2_of((k - 1) as nat));
        lemma_bit_length_bound(n / 2, (k - 1) as nat);
    }
}

proof fn lemma_bit_length_lower(n: nat)
    requires
        n > 0,
    ensures
        bit_length(n) >= 1,
        pow2_of((bit_length(n) - 1) as nat) <= n < pow2_of(bit_length(n)),
    decreases n,
{
    if n >= 2 {
        lemma_bit_length_lower(n / 2);
        let b = bit_length(n / 2);
        assert(bit_length(n) == 1 + b);
        assert(pow2_of(b) == 2 * pow2_of((b - 1) as nat));
        assert(pow2_of(b + 1) == 2 * pow2_of(b));
        assert((b + 1) as nat == bit_length(n));
    } else {
        assert(bit_length(0) == 0);
        assert(bit_length(n) == 1);
        assert(pow2_of(0) == 1);
        assert(pow2_of(1) == 2);
    }
}

proof fn lemma_pow2_of_values()
    ensures
        pow2_of(11) == 2048,
        pow2_of(13) == 8192,
        pow2_of(52) == 4503599627370496,
        pow2_of(53) == 9007199254740992,
        pow2_of(64) == 18446744073709551616,
        pow2_of(65) == 36893488147419103232,
        pow2_of(66) == 73786976294838206464,
{
    assert(pow2_of(0) == 1);
    assert(pow2_of(1) == 2);
    assert(pow2_of(2) == 4);
    assert(pow2_of(3) == 8);
    assert(pow2_of(4) == 16);
    assert(pow2_of(5) == 32);
    assert(pow2_of(6) == 64);
    assert(pow2_of(7) == 128);
    assert(pow2_of(8) == 256);
    assert(pow2_of(9) == 512);
    assert(pow2_of(10) == 1024);
    assert(pow2_of(11) == 2048);
    assert(pow2_of(12) == 4096);
    assert(pow2_of(13) == 8192);
    assert(pow2_of(14) == 16384);
    assert(pow2_of(15) == 32768);
    assert(pow2_of(16) == 65536);
    assert(pow2_of(17) == 131072);
    assert(pow2_of(18) == 262144);
    assert(pow2_of(19) == 524288);
    assert(pow2_of(20) == 1048576);
    assert(pow2_of(21) == 2097152);
    assert(pow2_of(22) == 4194304);
    assert(pow2_of(23) == 8388608);
    assert(pow2_of(24) == 16777216);
    assert(pow2_of(25) == 33554432);
    assert(pow2_of(26) == 67108864);
    assert(pow2_of(27) == 134217728);
    assert(pow2_of(28) == 268435456);
    assert(pow2_of(29) == 536870912);
    assert(pow2_of(30) == 1073741824);
    assert(pow2_of(31) == 2147483648);
    assert(pow2_of(32) == 4294967296);
    assert(pow2_of(33) == 8589934592);
    assert(pow2_of(34) == 17179869184);
    assert(pow2_of(35) == 34359738368);
    assert(pow2_of(36) == 68719476736);
    assert(pow2_of(37) == 137438953472);
    assert(pow2_of(38) == 274877906944);
    assert(pow2_of(39) == 549755813888);
    assert(pow2_of(40) == 1099511627776);
    assert(pow2_of(41) == 2199023255552);
    assert(pow2_of(42) == 4398046511104);
    assert(pow2_of(43) == 8796093022208);
    assert(pow2_of(44) == 17592186044416);
    assert(pow2_of(45) == 35184372088832);
    assert(pow2_of(46) == 70368744177664);
    assert(pow2_of(47) == 140737488355328);
    assert(pow2_of(48) == 281474976710656);
    assert(pow2_of(49) == 562949953421312);
    assert(pow2_of(50) == 1125899906842624);
    assert(pow2_of(51) == 2251799813685248);
    assert(pow2_of(52) == 4503599627370496);
    assert(pow2_of(53) == 9007199254740992);
    assert(pow2_of(54) == 18014398509481984);
    assert(pow2_of(55) == 36028797018963968);
    assert(pow2_of(56) == 72057594037927936);
    assert(pow2_of(57) == 144115188075855872);
    assert(pow2_of(58) == 288230376151711744);
    assert(pow2_of(59) == 576460752303423488);
    assert(pow2_of(60) == 1152921504606846976);
    assert(pow2_of(61) == 2305843009213693952);
    assert(pow2_of(62) == 4611686018427387904);
    assert(pow2_of(63) == 9223372036854775808);
    assert(pow2_of(64) == 18446744073709551616);
    assert(pow2_of(65) == 36893488147419103232);
    assert(pow2_of(66) == 73786976294838206464);
}

/// `x * 2^k`, computed by doubling.
fn times_pow2(x: u128, k: u32, Ghost(bound): Ghost<nat>) -> (r: u128)
    requires
        x * pow2_of(k as nat) <= bound,
        bound <= u128::MAX,
    ensures
        r == x * pow2_of(k as nat),
{
    let mut r = x;
    let mut i: u32 = 0;
    assert(pow2_of(0) == 1);
    assert(x * pow2_of(0) == x);
    while i < k
        invariant
            i <= k,
            r == x * pow2_of(i as nat),
            x * pow2_of(k as nat) <= bound,
            bound <= u128::MAX,
        decreases k - i,
    {
        proof {
            lemma_pow2_of_mono((i + 1) as nat, k as nat);
            assert(x * pow2_of((i + 1) as nat) <= x * pow2_of(k as nat)) by (nonlinear_arith)
                requires
                    pow2_of((i + 1) as nat) <= pow2_of(k as nat),
            ;
            assert(x * pow2_of((i + 1) as nat) == 2 * (x * pow2_of(i as nat))) by (nonlinear_arith)
                requires
                    pow2_of((i + 1) as nat) == 2 * pow2_of(i as nat),
            ;
        }
        r = 2 * r;
        i = i + 1;
    }
    r
}

/// The double nearest to the count `n`, as an integer.
fn double_of_count(n: usize) -> (r: u128)
    ensures
        r == double_of_int(n as nat),
        r <= 0x2_0000_0000_0000_0000,
        n >= 1 ==> r >= 1,
{
    proof {
        lemma_pow2_of_values();
        lemma_bit_length_bound(n as nat, 64);
    }
    if (n as u128) < 9007199254740992 {
        proof {
            lemma_bit_length_bound(n as nat, 53);
        }
        return n as u128;
    }
    let mut bits: u32 = 0;
    let mut x: usize = n;
    while x > 0
        invariant
            bit_length(n as nat) == bits + bit_length(x as nat),
            bit_length(n as nat) <= 64,
        decreases x,
    {
        x = x / 2;
        bits = bits + 1;
    }
    proof {
        lemma_bit_length_lower(n as nat);
        if bits <= 53 {
            lemma_pow2_of_mono(bits as nat, 53);
        }
    }
    let k: u32 = bits - 53;
    proof {
        lemma_pow2_of_mono(k as nat, 11);
    }
    let p = times_pow2(1, k, Ghost(2048));
    let q = round_even_exec(n as u128, p);
    proof {
        assert(q <= (n as nat) / (p as nat) + 1);
        assert(((n as nat) / (p as nat)) * p <= n) by (nonlinear_arith)
            requires
                p > 0,
        ;
        assert(q * p <= n + p) by (nonlinear_arith)
            requires
                q <= (n as nat) / (p as nat) + 1,
                ((n as nat) / (p as nat)) * p <= n,
                p > 0,
        ;
        assert(q >= 1) by (nonlinear_arith)
            requires
                q >= (n as nat) / (p as nat),
                n >= p,
                p > 0,
        ;
        assert(q * p >= 1) by (nonlinear_arith)
            requires
                q >= 1,
                p >= 1,
        ;
    }
    q * p
}

/// The largest `e` with `d * 2^e <= n`, with `d * 2^e`.
fn quotient_exec(n: u128, d: u128) -> (r: (u32, u128))
    requires
        1 <= d <= n <= 0x2_0000_0000_0000_0000,
    ensures
        r.0 == quotient_log2(n as nat, d as nat),
        r.1 == d * pow2_of(r.0 as nat),
        r.1 <= n < 2 * r.1,
        r.0 <= 65,
{
    let mut e: u32 = 0;
    let mut dd: u128 = d;
    proof {
        lemma_pow2_of_values();
        assert(pow2_of(0) == 1);
    }
    while dd <= n - dd
        invariant
            1 <= d <= dd <= n <= 0x2_0000_0000_0000_0000,
            dd == d * pow2_of(e as nat),
            quotient_log2(n as nat, d as nat) == e + quotient_log2(n as nat, dd as nat),
            pow2_of(e as nat) <= dd,
            e <= 65,
        decreases n - dd,
    {
        proof {
            assert(d * pow2_of((e + 1) as nat) == 2 * (d * pow2_of(e as nat))) by (nonlinear_arith)
                requires
                    pow2_of((e + 1) as nat) == 2 * pow2_of(e as nat),
            ;
            lemma_pow2_of_values();
            lemma_pow2_of_pos(e as nat);
            if e + 1 > 65 {
                lemma_pow2_of_mono(66, (e + 1) as nat);
                assert(d * pow2_of((e + 1) as nat) >= pow2_of((e + 1) as nat)) by (nonlinear_arith)
                    requires
                        d >= 1,
                        pow2_of((e + 1) as nat) >= 1,
                ;
            }
        }
        dd = 2 * dd;
        e = e + 1;
    }
    (e, dd)
}

/// Whether the ratio `m / a` of two positive counts, computed in double
/// precision, exceeds three, and when it does, ten times the ratio rounded
/// to one decimal place.
pub fn mock_ratio(m: usize, a: usize) -> (r: Option<u128>)
    requires
        m >= 1,
        a >= 1,
    ensures
        r is Some <==> ratio_over_three(m as nat, a as nat),
        r matches Some(t) ==> t == ratio_tenths(m as nat, a as nat),
{
    let n = double_of_count(m);
    let d = double_of_count(a);
    if n <= 3 * d {
        return None;
    }
    let (e, dd) = quotient_exec(n, d);
    proof {
        lemma_pow2_of_values();
    }
    if e <= 52 {
        let s: u32 = 52 - e;
        proof {
            lemma_pow2_of_mono(s as nat, 52);
            assert(n * pow2_of(s as nat) <= 0x2_0000_0000_0000_0000 * 4503599627370496) by (nonlinear_arith)
                requires
                    n <= 0x2_0000_0000_0000_0000,
                    pow2_of(s as nat) <= 4503599627370496,
            ;
        }
        let x = times_pow2(n, s, Ghost(0x2_0000_0000_0000_0000 * 4503599627370496));
        let den = times_pow2(1, s, Ghost(4503599627370496));
        let big_n = round_even_exec(x, d);
        assert(big_n <= 0x2_0000_0000_0000_0000 * 4503599627370496 + 1);
        if big_n > 3 * den {
            Some(round_even_exec(10 * big_n, den))
        } else {
            None
        }
    } else {
        let s: u32 = e - 52;
        proof {
            lemma_pow2_of_mono(s as nat, e as nat);
            lemma_pow2_of_mono(s as nat, 13);
            assert(d * pow2_of(s as nat) <= d * pow2_of(e as nat)) by (nonlinear_arith)
                requires
                    pow2_of(s as nat) <= pow2_of(e as nat),
            ;
        }
        let big_d = times_pow2(d, s, Ghost(n as nat));
        assert(big_d >= 1) by (nonlinear_arith)
            requires
                d >= 1,
                big_d == d * pow2_of(s as nat),
                pow2_of(s as nat) >= 1,
        ;
        let big_n = round_even_exec(n, big_d);
        proof {
            assert(big_n * pow2_of(s as nat) <= (0x2_0000_0000_0000_0000 + 1) * 8192) by (nonlinear_arith)
                requires
                    big_n <= 0x2_0000_0000_0000_0000 + 1,
                    pow2_of(s as nat) <= 8192,
            ;
        }
        let num = times_pow2(big_n, s, Ghost(((0x2_0000_0000_0000_0000 + 1) * 8192) as nat));
        if num > 3 {
            proof {
                assert(round_even((10 * num) as nat, 1) == 10 * num);
            }
            Some(10 * num)
        } else {
            None
        }
    }
}

} // verus!
